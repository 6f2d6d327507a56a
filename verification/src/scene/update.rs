//! The update of a frame: who is visible, and which nodes carry what.

use crate::numbers::{Aabb, Mat4, Real};
use crate::pool::Handle;
use crate::scene::cull::CullAction;
use crate::scene::graph;
use crate::scene::graph::{NodeIndex, Scene};
use crate::scene::lod::Lod;
use crate::scene::node::Node;
use crate::tree;
use vstd::prelude::*;

verus! {

/// What a node can be indexed for.
#[derive(Debug, Clone, Copy, PartialEq, Eq, Structural)]
pub enum Component {
    Drawable,
    Light,
    Camera,
    Particles,
    Skin,
    Animator,
    RigidBody,
    Collider,
    Joint,
    Ragdoll,
    Sound,
    Script,
    Terrain,
}

/// A node is admitted when it is visible and its parent, if that has levels of detail, has not
/// chosen another child.
pub open spec fn admitted(nodes: Map<Handle, Node>, h: Handle) -> bool {
    let parent = nodes[h].parent;
    &&& nodes[h].visible
    &&& nodes.contains_key(parent) && nodes[parent].lod is Some ==> forall|i: int|
        0 <= i < nodes[parent].children@.len() && #[trigger] nodes[parent].children@[i] == h ==> i
            >= nodes[parent].lod->0.levels@.len() || i == nodes[parent].lod->0.current
}

/// A node is shown when it and everything that it hangs under is admitted.
pub open spec fn shown(nodes: Map<Handle, Node>, h: Handle) -> bool {
    forall|a: Handle| #[trigger]
        tree::below(graph::links_of(nodes), a, h) && nodes.contains_key(a) ==> admitted(nodes, a)
}

/// Whether a node belongs into an index.
pub open spec fn carries(nodes: Map<Handle, Node>, h: Handle, component: Component) -> bool {
    match component {
        Component::Drawable => shown(nodes, h) && nodes[h].mesh is Some,
        Component::Light => nodes[h].light is Some,
        Component::Camera => nodes[h].camera is Some,
        Component::Particles => nodes[h].particles is Some,
        Component::Skin => nodes[h].skin is Some,
        Component::Animator => nodes[h].animator is Some,
        Component::RigidBody => nodes[h].rigid_body is Some,
        Component::Collider => nodes[h].collider is Some,
        Component::Joint => nodes[h].joint is Some,
        Component::Ragdoll => nodes[h].ragdoll is Some,
        Component::Sound => nodes[h].sound is Some,
        Component::Script => nodes[h].script is Some,
        Component::Terrain => nodes[h].terrain is Some,
    }
}

/// The nodes of a list that belong into an index, in the order of the list.
pub open spec fn listed(nodes: Map<Handle, Node>, list: Seq<Handle>, component: Component) -> Seq<
    Handle,
>
    decreases list.len(),
{
    if list.len() == 0 {
        Seq::empty()
    } else {
        let front = listed(nodes, list.drop_last(), component);
        if carries(nodes, list.last(), component) {
            front.push(list.last())
        } else {
            front
        }
    }
}

/// An index of a list holds those of its members that belong there, each once if it was there
/// once.
pub proof fn lemma_listed(nodes: Map<Handle, Node>, list: Seq<Handle>, component: Component)
    ensures
        forall|x: Handle| #[trigger]
            listed(nodes, list, component).contains(x) <==> list.contains(x) && carries(
                nodes,
                x,
                component,
            ),
        list.no_duplicates() ==> listed(nodes, list, component).no_duplicates(),
    decreases list.len(),
{
    if list.len() > 0 {
        let front = list.drop_last();
        let last = list.last();
        let before = listed(nodes, front, component);
        let now = listed(nodes, list, component);
        lemma_listed(nodes, front, component);
        assert forall|x: Handle| #[trigger] now.contains(x) <==> list.contains(x) && carries(
            nodes,
            x,
            component,
        ) by {
            if list.contains(x) {
                let i = choose|i: int| 0 <= i < list.len() && list[i] == x;
                if i < front.len() {
                    assert(front[i] == x);
                }
            }
            if front.contains(x) {
                let i = choose|i: int| 0 <= i < front.len() && front[i] == x;
                assert(list[i] == x);
            }
            if before.contains(x) {
                let i = choose|i: int| 0 <= i < before.len() && before[i] == x;
                assert(now[i] == x);
            }
            if now.contains(x) {
                let i = choose|i: int| 0 <= i < now.len() && now[i] == x;
                if i < before.len() {
                    assert(before[i] == x);
                }
            }
            assert(list[list.len() - 1] == last);
            if carries(nodes, last, component) {
                assert(now[now.len() - 1] == last);
            }
        }
        if list.no_duplicates() {
            assert(front.no_duplicates());
            assert(!before.contains(last)) by {
                if front.contains(last) {
                    let i = choose|i: int| 0 <= i < front.len() && front[i] == last;
                    assert(list[i] == list[list.len() - 1]);
                }
            }
            assert forall|i: int, j: int| 0 <= i < j < now.len() implies now[i] != now[j] by {
                assert(before[i] == now[i]);
                assert(before.contains(before[i]));
                if j < before.len() {
                    assert(before[j] == now[j]);
                }
            }
        }
    }
}

/// `list` with `h` behind it, if `h` belongs there.
pub open spec fn behind(list: Seq<Handle>, h: Handle, belongs: bool) -> Seq<Handle> {
    if belongs {
        list.push(h)
    } else {
        list
    }
}

impl NodeIndex {
    /// Each list holds the nodes that belong there, in the given order.
    pub open spec fn collects(&self, nodes: Map<Handle, Node>, order: Seq<Handle>) -> bool {
        &&& self.drawables@ == listed(nodes, order, Component::Drawable)
        &&& self.lights@ == listed(nodes, order, Component::Light)
        &&& self.cameras@ == listed(nodes, order, Component::Camera)
        &&& self.particles@ == listed(nodes, order, Component::Particles)
        &&& self.skinned@ == listed(nodes, order, Component::Skin)
        &&& self.animators@ == listed(nodes, order, Component::Animator)
        &&& self.rigid_bodies@ == listed(nodes, order, Component::RigidBody)
        &&& self.colliders@ == listed(nodes, order, Component::Collider)
        &&& self.joints@ == listed(nodes, order, Component::Joint)
        &&& self.ragdolls@ == listed(nodes, order, Component::Ragdoll)
        &&& self.sounds@ == listed(nodes, order, Component::Sound)
        &&& self.scripts@ == listed(nodes, order, Component::Script)
        &&& self.terrains@ == listed(nodes, order, Component::Terrain)
    }

    /// This index is `before` with one more node behind each list that it belongs to.
    pub open spec fn gains(&self, before: NodeIndex, h: Handle, node: Node, is_shown: bool) -> bool {
        &&& self.drawables@ == behind(before.drawables@, h, is_shown && node.mesh is Some)
        &&& self.lights@ == behind(before.lights@, h, node.light is Some)
        &&& self.cameras@ == behind(before.cameras@, h, node.camera is Some)
        &&& self.particles@ == behind(before.particles@, h, node.particles is Some)
        &&& self.skinned@ == behind(before.skinned@, h, node.skin is Some)
        &&& self.animators@ == behind(before.animators@, h, node.animator is Some)
        &&& self.rigid_bodies@ == behind(before.rigid_bodies@, h, node.rigid_body is Some)
        &&& self.colliders@ == behind(before.colliders@, h, node.collider is Some)
        &&& self.joints@ == behind(before.joints@, h, node.joint is Some)
        &&& self.ragdolls@ == behind(before.ragdolls@, h, node.ragdoll is Some)
        &&& self.sounds@ == behind(before.sounds@, h, node.sound is Some)
        &&& self.scripts@ == behind(before.scripts@, h, node.script is Some)
        &&& self.terrains@ == behind(before.terrains@, h, node.terrain is Some)
    }

    fn collect(&mut self, h: Handle, node: &Node, is_shown: bool)
        ensures
            final(self).gains(*old(self), h, *node, is_shown),
    {
        if is_shown && node.mesh.is_some() {
            self.drawables.push(h);
        }
        if node.light.is_some() {
            self.lights.push(h);
        }
        if node.camera.is_some() {
            self.cameras.push(h);
        }
        if node.particles.is_some() {
            self.particles.push(h);
        }
        if node.skin.is_some() {
            self.skinned.push(h);
        }
        if node.animator.is_some() {
            self.animators.push(h);
        }
        if node.rigid_body.is_some() {
            self.rigid_bodies.push(h);
        }
        if node.collider.is_some() {
            self.colliders.push(h);
        }
        if node.joint.is_some() {
            self.joints.push(h);
        }
        if node.ragdoll.is_some() {
            self.ragdolls.push(h);
        }
        if node.sound.is_some() {
            self.sounds.push(h);
        }
        if node.script.is_some() {
            self.scripts.push(h);
        }
        if node.terrain.is_some() {
            self.terrains.push(h);
        }
    }
}

proof fn lemma_collects_nothing(index: NodeIndex, nodes: Map<Handle, Node>)
    requires
        index.empty(),
    ensures
        index.collects(nodes, Seq::empty()),
{
    let none = Seq::<Handle>::empty();
    assert(index.drawables@ =~= none);
    assert(index.lights@ =~= none);
    assert(index.cameras@ =~= none);
    assert(index.particles@ =~= none);
    assert(index.skinned@ =~= none);
    assert(index.animators@ =~= none);
    assert(index.rigid_bodies@ =~= none);
    assert(index.colliders@ =~= none);
    assert(index.joints@ =~= none);
    assert(index.ragdolls@ =~= none);
    assert(index.sounds@ =~= none);
    assert(index.scripts@ =~= none);
    assert(index.terrains@ =~= none);
}

proof fn lemma_collects_more(
    before: NodeIndex,
    after: NodeIndex,
    nodes: Map<Handle, Node>,
    order: Seq<Handle>,
)
    requires
        order.len() > 0,
        before.collects(nodes, order.drop_last()),
        after.gains(before, order.last(), nodes[order.last()], shown(nodes, order.last())),
    ensures
        after.collects(nodes, order),
{
}

/// A child is shown when its parent is and it is admitted itself.
proof fn lemma_shown_child(nodes: Map<Handle, Node>, root: Handle, h: Handle)
    requires
        tree::tree_wf(graph::links_of(nodes), root),
        nodes.contains_key(h),
    ensures
        h == root ==> shown(nodes, h) == admitted(nodes, h),
        h != root ==> shown(nodes, h) == (shown(nodes, nodes[h].parent) && admitted(nodes, h)),
{
    let t = graph::links_of(nodes);
    tree::lemma_below_self(t, root, h);
    assert(t[h].parent == nodes[h].parent);
    if shown(nodes, h) {
        assert(admitted(nodes, h));
    }
    if h == root {
        if admitted(nodes, h) {
            assert forall|a: Handle| #[trigger]
                tree::below(t, a, h) && nodes.contains_key(a) implies admitted(nodes, a) by {
                if a != h {
                    tree::lemma_below_parent(t, root, a, h);
                }
            }
        }
    } else {
        let p = nodes[h].parent;
        if shown(nodes, h) {
            assert forall|a: Handle| #[trigger]
                tree::below(t, a, p) && nodes.contains_key(a) implies admitted(nodes, a) by {
                if a != h {
                    tree::lemma_below_parent(t, root, a, h);
                    assert(tree::below(t, a, h));
                }
            }
        }
        if shown(nodes, p) && admitted(nodes, h) {
            assert forall|a: Handle| #[trigger]
                tree::below(t, a, h) && nodes.contains_key(a) implies admitted(nodes, a) by {
                if a != h {
                    tree::lemma_below_parent(t, root, a, h);
                    assert(tree::below(t, a, p));
                }
            }
        }
    }
}

impl Scene {
    fn is_admitted(&self, handle: Handle) -> (result: bool)
        requires
            self.nodes@.contains_key(handle),
        ensures
            result == admitted(self.nodes@, handle),
    {
        let node = self.nodes.borrow(handle);
        if !node.visible {
            return false;
        }
        let parent = match self.nodes.try_borrow(node.parent) {
            Some(parent) => parent,
            None => {
                return true;
            },
        };
        let lod = match &parent.lod {
            Some(lod) => lod,
            None => {
                return true;
            },
        };
        let mut i: usize = 0;
        while i < parent.children.len()
            invariant
                i <= parent.children@.len(),
                self.nodes@.contains_key(self.nodes@[handle].parent),
                *parent == self.nodes@[self.nodes@[handle].parent],
                parent.lod == Some(*lod),
                forall|j: int|
                    0 <= j < i && #[trigger] parent.children@[j] == handle ==> j
                        >= lod.levels@.len() || j == lod.current,
            decreases parent.children@.len() - i,
        {
            if parent.children[i] == handle && !lod.shows_child(i) {
                assert(parent.children@[i as int] == handle);
                return false;
            }
            i += 1;
        }
        true
    }

    /// Lets a node choose its level of detail for a distance, unless it is told not to. `relaxed`
    /// holds the distance of each of its levels, lessened by the level's hysteresis; where that
    /// does not fit the levels, nothing happens.
    pub fn update_lod(&mut self, handle: Handle, distance: Real, relaxed: &Vec<Real>)
        requires
            old(self).wf(),
            old(self).nodes@.contains_key(handle) && old(self).nodes@[handle].lod is Some ==> old(
                self,
            ).nodes@[handle].lod->0.wf(),
        ensures
            final(self).nodes@.dom() == old(self).nodes@.dom(),
            old(self).nodes@.contains_key(handle) ==> level_taken(
                old(self).nodes@[handle],
                final(self).nodes@[handle],
                distance,
                relaxed@,
            ),
            final(self).wf(),
            final(self).tree() == old(self).tree(),
            final(self).nodes@ == if old(self).nodes@.contains_key(handle) && (old(
                self,
            ).nodes@[handle].lod matches Some(lod) && lod.auto_update && lod.levels@.len()
                == relaxed@.len()) {
                let node = old(self).nodes@[handle];
                let lod = node.lod->0;
                old(self).nodes@.insert(
                    handle,
                    Node {
                        lod: Some(
                            Lod { current: lod.chosen(distance, relaxed@) as usize, ..lod },
                        ),
                        ..node
                    },
                )
            } else {
                old(self).nodes@
            },
            final(self).nodes.capacity() == old(self).nodes.capacity(),
            final(self).index == old(self).index,
            final(self).physics == old(self).physics,
            final(self).rest_same(old(self)),
    {
        proof {
            graph::lemma_place_kept(self.nodes@, handle);
        }
        if let Some(node) = self.nodes.try_borrow_mut(handle) {
            if let Some(lod) = &mut node.lod {
                if lod.auto_update && lod.levels.len() == relaxed.len() {
                    let _ = lod.update(distance, relaxed);
                }
            }
        }
        proof {
            if !(old(self).nodes@.contains_key(handle) && (old(self).nodes@[handle].lod matches Some(
                lod,
            ) && lod.auto_update && lod.levels@.len() == relaxed@.len())) {
                assert(self.nodes@ =~= old(self).nodes@);
            }
        }
    }

    /// Works out who is shown and which nodes carry what, from the root down. The result lists all
    /// nodes, parents before their children: whoever composes the world transforms can go through
    /// it once, from front to back.
    pub fn update(&mut self) -> (result: Vec<Handle>)
        requires
            old(self).wf(),
        ensures
            final(self).wf(),
            result@ == tree::preorder(old(self).tree(), old(self).root),
            final(self).tree() == old(self).tree(),
            final(self).nodes@.dom() == old(self).nodes@.dom(),
            forall|h: Handle| #[trigger]
                old(self).nodes@.contains_key(h) ==> final(self).nodes@[h] == (Node {
                    global_visible: shown(old(self).nodes@, h),
                    ..old(self).nodes@[h]
                }),
            final(self).index.collects(old(self).nodes@, result@),
            final(self).nodes.capacity() == old(self).nodes.capacity(),
            forall|h: Handle| final(self).nodes.issued(h) == old(self).nodes.issued(h),
            final(self).physics == old(self).physics,
            final(self).rest_same(old(self)),
    {
        let ghost nodes = self.nodes@;
        let ghost t = self.tree();
        let order = self.subtree(self.root);
        self.index.clear();
        proof {
            tree::lemma_preorder_no_duplicates(t, self.root, self.root);
            tree::lemma_below_self(t, self.root, self.root);
            assert(order@.take(0) =~= Seq::<Handle>::empty());
            lemma_collects_nothing(self.index, nodes);
        }
        let mut i: usize = 0;
        while i < order.len()
            invariant
                nodes == old(self).nodes@,
                t == graph::links_of(nodes),
                tree::tree_wf(t, self.root),
                order@ == tree::preorder(t, self.root),
                order@.no_duplicates(),
                forall|x: Handle| #[trigger] tree::below(t, self.root, x) ==> t.contains_key(x),
                i <= order@.len(),
                self.nodes.wf(),
                self.nodes@.dom() == nodes.dom(),
                forall|x: Handle| #[trigger]
                    nodes.contains_key(x) ==> self.nodes@[x] == if order@.take(i as int).contains(
                        x,
                    ) {
                        Node { global_visible: shown(nodes, x), ..nodes[x] }
                    } else {
                        nodes[x]
                    },
                self.index.collects(nodes, order@.take(i as int)),
                self.nodes.capacity() == old(self).nodes.capacity(),
                forall|h: Handle| self.nodes.issued(h) == old(self).nodes.issued(h),
                self.physics == old(self).physics,
                self.rest_same(old(self)),
            decreases order@.len() - i,
        {
            let h = order[i];
            proof {
                assert(tree::below(t, self.root, h));
                assert(t.contains_key(h));
                tree::lemma_parent_first(t, self.root, self.root, i as int);
                lemma_shown_child(nodes, self.root, h);
                lemma_take_one(order@, i as int);
                if i > 0 {
                    let j = choose|j: int| 0 <= j < i && #[trigger] order@[j] == t[order@[i as int]].parent;
                    assert(order@.take(i as int)[j] == t[h].parent);
                    assert(order@[0] == self.root);
                    if h == self.root {
                        assert(order@[0] == order@[i as int]);
                    }
                }
            }
            let above: bool = if i == 0 {
                true
            } else {
                let parent = self.nodes.borrow(h).parent;
                self.nodes.borrow(parent).global_visible
            };
            let is_shown: bool = above && self.is_admitted(h);
            proof {
                let now = self.nodes@;
                let p = nodes[h].parent;
                assert(now[h].parent == p && now[h].visible == nodes[h].visible);
                assert(now.contains_key(p) == nodes.contains_key(p));
                if nodes.contains_key(p) {
                    assert(now[p].children == nodes[p].children && now[p].lod == nodes[p].lod);
                }
                assert(admitted(now, h) == admitted(nodes, h));
            }
            assert(is_shown == shown(nodes, h));
            let ghost before = self.index;
            self.index.collect(h, self.nodes.borrow(h), is_shown);
            proof {
                let next = order@.take(i + 1);
                assert(next.drop_last() =~= order@.take(i as int));
                lemma_collects_more(before, self.index, nodes, next);
            }
            self.nodes.borrow_mut(h).global_visible = is_shown;
            assert(self.nodes@.dom() =~= nodes.dom());
            i += 1;
        }
        proof {
            assert(order@.take(i as int) =~= order@);
            assert forall|h: Handle| #[trigger] nodes.contains_key(h) implies self.nodes@[h] == (Node {
                global_visible: shown(nodes, h),
                ..nodes[h]
            }) by {
                assert(t.contains_key(h));
                tree::lemma_all_below_root(t, self.root, h);
            }
            assert(self.tree() =~= t);
            lemma_listed(nodes, order@, Component::Drawable);
            lemma_listed(nodes, order@, Component::Light);
            lemma_listed(nodes, order@, Component::Camera);
            lemma_listed(nodes, order@, Component::Particles);
            lemma_listed(nodes, order@, Component::Skin);
            lemma_listed(nodes, order@, Component::Animator);
            lemma_listed(nodes, order@, Component::RigidBody);
            lemma_listed(nodes, order@, Component::Collider);
            lemma_listed(nodes, order@, Component::Joint);
            lemma_listed(nodes, order@, Component::Ragdoll);
            lemma_listed(nodes, order@, Component::Sound);
            lemma_listed(nodes, order@, Component::Script);
            lemma_listed(nodes, order@, Component::Terrain);
        }
        order
    }
}

/// The same nodes, differing at most in whether they were found to be shown.
pub open spec fn only_visibility_differs(a: Map<Handle, Node>, b: Map<Handle, Node>) -> bool {
    &&& a.dom() == b.dom()
    &&& forall|h: Handle| #[trigger]
        b.contains_key(h) ==> b[h] == (Node { global_visible: b[h].global_visible, ..a[h] })
}

/// Who is shown does not depend on who was found to be shown before.
pub proof fn lemma_shown_again(a: Map<Handle, Node>, b: Map<Handle, Node>)
    requires
        only_visibility_differs(a, b),
    ensures
        forall|h: Handle| shown(a, h) == shown(b, h),
{
    assert(graph::links_of(a) =~= graph::links_of(b));
    assert forall|h: Handle| a.contains_key(h) implies #[trigger] admitted(a, h) == admitted(
        b,
        h,
    ) by {
        assert(b.contains_key(h));
        let p = a[h].parent;
        assert(b[h].parent == p);
        if a.contains_key(p) {
            assert(b.contains_key(p));
            assert(b[p].children == a[p].children && b[p].lod == a[p].lod);
        }
    }
    assert forall|h: Handle| shown(a, h) == shown(b, h) by {
        if shown(a, h) {
            assert forall|x: Handle| #[trigger]
                tree::below(graph::links_of(b), x, h) && b.contains_key(x) implies admitted(
                b,
                x,
            ) by {
                assert(a.contains_key(x));
                assert(admitted(a, x));
            }
        }
        if shown(b, h) {
            assert forall|x: Handle| #[trigger]
                tree::below(graph::links_of(a), x, h) && a.contains_key(x) implies admitted(
                a,
                x,
            ) by {
                assert(b.contains_key(x));
                assert(admitted(b, x));
            }
        }
    }
}

proof fn lemma_listed_again(
    a: Map<Handle, Node>,
    b: Map<Handle, Node>,
    list: Seq<Handle>,
    component: Component,
)
    requires
        only_visibility_differs(a, b),
        forall|i: int| 0 <= i < list.len() ==> a.contains_key(#[trigger] list[i]),
    ensures
        listed(a, list, component) == listed(b, list, component),
    decreases list.len(),
{
    if list.len() > 0 {
        let front = list.drop_last();
        assert forall|i: int| 0 <= i < front.len() implies a.contains_key(#[trigger] front[i]) by {
            assert(front[i] == list[i]);
        }
        lemma_listed_again(a, b, front, component);
        lemma_shown_again(a, b);
        let h = list.last();
        assert(a.contains_key(list[list.len() - 1]));
        assert(b.contains_key(h));
    }
}

/// An index does not depend on who was found to be shown before.
pub proof fn lemma_collects_again(
    index: NodeIndex,
    a: Map<Handle, Node>,
    b: Map<Handle, Node>,
    list: Seq<Handle>,
)
    requires
        only_visibility_differs(a, b),
        forall|i: int| 0 <= i < list.len() ==> a.contains_key(#[trigger] list[i]),
        index.collects(a, list),
    ensures
        index.collects(b, list),
{
    lemma_listed_again(a, b, list, Component::Drawable);
    lemma_listed_again(a, b, list, Component::Light);
    lemma_listed_again(a, b, list, Component::Camera);
    lemma_listed_again(a, b, list, Component::Particles);
    lemma_listed_again(a, b, list, Component::Skin);
    lemma_listed_again(a, b, list, Component::Animator);
    lemma_listed_again(a, b, list, Component::RigidBody);
    lemma_listed_again(a, b, list, Component::Collider);
    lemma_listed_again(a, b, list, Component::Joint);
    lemma_listed_again(a, b, list, Component::Ragdoll);
    lemma_listed_again(a, b, list, Component::Sound);
    lemma_listed_again(a, b, list, Component::Script);
    lemma_listed_again(a, b, list, Component::Terrain);
}

/// How the box of a drawable is to be worked out.
#[derive(Debug)]
pub enum BoundsPlan {
    /// There is nothing to draw.
    Nothing,
    /// From the mesh as its morph weights pull it.
    Morphed,
    /// From the mesh as it is: it has a skin, but none of its joints is there.
    BindPose,
    /// Around these joints, with room for what hangs on them.
    Joints(Vec<Handle>),
}

/// The nodes with the world transforms that were composed for them.
pub open spec fn transforms_stored(
    before: Map<Handle, Node>,
    after: Map<Handle, Node>,
    order: Seq<Handle>,
    globals: Seq<Mat4>,
) -> bool {
    &&& after.dom() == before.dom()
    &&& forall|i: int|
        0 <= i < order.len() && before.contains_key(#[trigger] order[i]) ==> after[order[i]] == (
        Node { global_transform: globals[i], ..before[order[i]] })
    &&& forall|h: Handle| #[trigger]
        before.contains_key(h) && !order.contains(h) ==> after[h] == before[h]
}

/// The nodes with the boxes that were worked out for the drawables.
pub open spec fn boxes_stored(
    before: Map<Handle, Node>,
    after: Map<Handle, Node>,
    drawables: Seq<Handle>,
    bounds: Seq<Aabb>,
) -> bool {
    &&& after.dom() == before.dom()
    &&& forall|i: int|
        0 <= i < drawables.len() && before.contains_key(#[trigger] drawables[i])
            ==> after[drawables[i]] == (Node { global_aabb: bounds[i], ..before[drawables[i]] })
    &&& forall|h: Handle| #[trigger]
        before.contains_key(h) && !drawables.contains(h) ==> after[h] == before[h]
}

/// A node has chosen its level of detail, unless it is told not to.
pub open spec fn level_taken(
    before: Node,
    after: Node,
    distance: Real,
    relaxed: Seq<Real>,
) -> bool {
    match before.lod {
        Some(lod) if lod.auto_update && lod.levels@.len() == relaxed.len() => {
            &&& after.lod is Some
            &&& after.lod->0 == (Lod { current: after.lod->0.current, ..lod })
            &&& after.lod->0.current == lod.chosen(distance, relaxed) as usize
            &&& after == (Node { lod: after.lod, ..before })
        },
        _ => after == before,
    }
}

/// The members of a list that are nodes.
pub open spec fn present(nodes: Map<Handle, Node>, list: Seq<Handle>) -> Seq<Handle>
    decreases list.len(),
{
    if list.len() == 0 {
        Seq::empty()
    } else {
        let front = present(nodes, list.drop_last());
        if nodes.contains_key(list.last()) {
            front.push(list.last())
        } else {
            front
        }
    }
}

impl Scene {
    /// Takes over the world transforms that were composed for the listed nodes. Nodes that are not
    /// there are passed over.
    pub fn store_transforms(&mut self, order: &Vec<Handle>, globals: &Vec<Mat4>)
        requires
            old(self).wf(),
            order@.no_duplicates(),
            order@.len() == globals@.len(),
        ensures
            transforms_stored(old(self).nodes@, final(self).nodes@, order@, globals@),
            final(self).wf(),
            final(self).tree() == old(self).tree(),
            final(self).nodes@.dom() == old(self).nodes@.dom(),
            forall|i: int|
                0 <= i < order@.len() && old(self).nodes@.contains_key(#[trigger] order@[i])
                    ==> final(self).nodes@[order@[i]] == (Node {
                    global_transform: globals@[i],
                    ..old(self).nodes@[order@[i]]
                }),
            forall|h: Handle| #[trigger]
                old(self).nodes@.contains_key(h) && !order@.contains(h) ==> final(self).nodes@[h]
                    == old(self).nodes@[h],
            final(self).nodes.capacity() == old(self).nodes.capacity(),
            final(self).index == old(self).index,
            final(self).physics == old(self).physics,
            final(self).rest_same(old(self)),
    {
        let mut i: usize = 0;
        while i < order.len()
            invariant
                order@.no_duplicates(),
                order@.len() == globals@.len(),
                i <= order@.len(),
                self.wf(),
                self.tree() == old(self).tree(),
                self.nodes@.dom() == old(self).nodes@.dom(),
                forall|j: int|
                    0 <= j < i && old(self).nodes@.contains_key(#[trigger] order@[j])
                        ==> self.nodes@[order@[j]] == (Node {
                        global_transform: globals@[j],
                        ..old(self).nodes@[order@[j]]
                    }),
                forall|h: Handle| #[trigger]
                    old(self).nodes@.contains_key(h) && !order@.take(i as int).contains(h)
                        ==> self.nodes@[h] == old(self).nodes@[h],
                self.nodes.capacity() == old(self).nodes.capacity(),
                self.index == old(self).index,
                self.physics == old(self).physics,
                self.rest_same(old(self)),
            decreases order@.len() - i,
        {
            let h = order[i];
            proof {
                lemma_take_one(order@, i as int);
                graph::lemma_place_kept(self.nodes@, h);
            }
            if self.nodes.is_valid_handle(h) {
                self.nodes.borrow_mut(h).global_transform = globals[i];
                assert(self.nodes@.dom() =~= old(self).nodes@.dom());
            }
            i += 1;
        }
        assert(order@.take(i as int) =~= order@);
    }

    /// How the box of a drawable is to be worked out. The box of a skinned mesh goes by its
    /// joints: its vertices go where they go.
    pub fn bounds_plan(&self, handle: Handle) -> (result: BoundsPlan)
        ensures
            ({
                let known = self.nodes@.contains_key(handle) && self.nodes@[handle].mesh is Some;
                match self.nodes@[handle].skin {
                    _ if !known => result is Nothing,
                    None => result is Morphed,
                    Some(skin) => {
                        let joints = present(self.nodes@, skin.joints@);
                        if joints.len() == 0 {
                            result is BindPose
                        } else {
                            result matches BoundsPlan::Joints(list) && list@ == joints
                        }
                    },
                }
            }),
    {
        let node = match self.nodes.try_borrow(handle) {
            Some(node) => node,
            None => {
                return BoundsPlan::Nothing;
            },
        };
        if node.mesh.is_none() {
            return BoundsPlan::Nothing;
        }
        let skin = match &node.skin {
            Some(skin) => skin,
            None => {
                return BoundsPlan::Morphed;
            },
        };
        let mut joints: Vec<Handle> = Vec::new();
        let mut i: usize = 0;
        while i < skin.joints.len()
            invariant
                i <= skin.joints@.len(),
                joints@ == present(self.nodes@, skin.joints@.take(i as int)),
            decreases skin.joints@.len() - i,
        {
            let joint = skin.joints[i];
            if self.nodes.is_valid_handle(joint) {
                joints.push(joint);
            }
            i += 1;
            assert(skin.joints@.take(i as int).drop_last() =~= skin.joints@.take(i - 1));
        }
        assert(skin.joints@.take(i as int) =~= skin.joints@);
        if joints.len() == 0 {
            BoundsPlan::BindPose
        } else {
            BoundsPlan::Joints(joints)
        }
    }

    /// Takes over the boxes that were worked out for the drawables, and says what has to be done
    /// to the search structure.
    pub fn refresh_culling(&mut self, bounds: &Vec<Aabb>) -> (result: CullAction)
        requires
            old(self).wf(),
            bounds@.len() == old(self).index.drawables@.len(),
        ensures
            boxes_stored(
                old(self).nodes@,
                final(self).nodes@,
                old(self).index.drawables@,
                bounds@,
            ),
            final(self).wf(),
            final(self).tree() == old(self).tree(),
            final(self).nodes@.dom() == old(self).nodes@.dom(),
            forall|i: int|
                0 <= i < bounds@.len() && old(self).nodes@.contains_key(
                    #[trigger] old(self).index.drawables@[i],
                ) ==> final(self).nodes@[old(self).index.drawables@[i]] == (Node {
                    global_aabb: bounds@[i],
                    ..old(self).nodes@[old(self).index.drawables@[i]]
                }),
            forall|h: Handle| #[trigger]
                old(self).nodes@.contains_key(h) && !old(self).index.drawables@.contains(h)
                    ==> final(self).nodes@[h] == old(self).nodes@[h],
            result == old(self).culling.action_for(old(self).index.drawables@, bounds@),
            final(self).culling.took(&old(self).culling, old(self).index.drawables@, bounds@),
            final(self).nodes.capacity() == old(self).nodes.capacity(),
            final(self).index == old(self).index,
            final(self).physics == old(self).physics,
            final(self).root == old(self).root,
            final(self).environment == old(self).environment,
            final(self).physics2d == old(self).physics2d,
            final(self).sprites == old(self).sprites,
            final(self).sprite_textures == old(self).sprite_textures,
            final(self).prefiltered_environment == old(self).prefiltered_environment,
            final(self).environment_version == old(self).environment_version,
            final(self).gizmos == old(self).gizmos,
    {
        self.culling.begin();
        let mut i: usize = 0;
        assert(self.index.drawables@.take(0) =~= Seq::<Handle>::empty());
        assert(bounds@.take(0) =~= Seq::<Aabb>::empty());
        while i < self.index.drawables.len()
            invariant
                self.nodes.wf(),
                self.physics.wf(),
                self.index.wf(),
                tree::tree_wf(self.tree(), self.root),
                self.tree() == old(self).tree(),
                self.root == old(self).root,
                self.index == old(self).index,
                bounds@.len() == self.index.drawables@.len(),
                i <= bounds@.len(),
                self.nodes@.dom() == old(self).nodes@.dom(),
                forall|j: int|
                    0 <= j < i && old(self).nodes@.contains_key(
                        #[trigger] old(self).index.drawables@[j],
                    ) ==> self.nodes@[old(self).index.drawables@[j]] == (Node {
                        global_aabb: bounds@[j],
                        ..old(self).nodes@[old(self).index.drawables@[j]]
                    }),
                forall|h: Handle| #[trigger]
                    old(self).nodes@.contains_key(h) && !old(self).index.drawables@.take(
                        i as int,
                    ).contains(h) ==> self.nodes@[h] == old(self).nodes@[h],
                self.culling.next_handles@ == self.index.drawables@.take(i as int),
                self.culling.next_bounds@ == bounds@.take(i as int),
                self.culling.handles == old(self).culling.handles,
                self.culling.bounds == old(self).culling.bounds,
                self.culling.refits == old(self).culling.refits,
                self.culling.handles@.len() == self.culling.bounds@.len(),
                self.nodes.capacity() == old(self).nodes.capacity(),
                self.physics == old(self).physics,
                self.environment == old(self).environment,
                self.physics2d == old(self).physics2d,
                self.sprites == old(self).sprites,
                self.sprite_textures == old(self).sprite_textures,
                self.prefiltered_environment == old(self).prefiltered_environment,
                self.environment_version == old(self).environment_version,
                self.gizmos == old(self).gizmos,
            decreases bounds@.len() - i,
        {
            let h = self.index.drawables[i];
            proof {
                lemma_take_one(self.index.drawables@, i as int);
                graph::lemma_place_kept(self.nodes@, h);
            }
            if self.nodes.is_valid_handle(h) {
                self.nodes.borrow_mut(h).global_aabb = bounds[i];
                assert(self.nodes@.dom() =~= old(self).nodes@.dom());
            }
            self.culling.push(h, bounds[i]);
            i += 1;
            assert(self.culling.next_handles@ =~= self.index.drawables@.take(i as int));
            assert(self.culling.next_bounds@ =~= bounds@.take(i as int));
        }
        assert(self.index.drawables@.take(i as int) =~= self.index.drawables@);
        assert(bounds@.take(i as int) =~= bounds@);
        self.culling.commit()
    }
}

/// One more of a list without repetitions.
pub proof fn lemma_take_one(list: Seq<Handle>, i: int)
    requires
        0 <= i < list.len(),
        list.no_duplicates(),
    ensures
        !list.take(i).contains(list[i]),
        forall|x: Handle| #[trigger]
            list.take(i + 1).contains(x) <==> list.take(i).contains(x) || x == list[i],
{
    let now = list.take(i);
    let next = list.take(i + 1);
    if now.contains(list[i]) {
        let k = choose|k: int| 0 <= k < now.len() && now[k] == list[i];
        assert(list[k] == list[i]);
    }
    assert forall|x: Handle| #[trigger] next.contains(x) <==> now.contains(x) || x == list[i] by {
        if next.contains(x) {
            let k = choose|k: int| 0 <= k < next.len() && next[k] == x;
            if k < i {
                assert(now[k] == x);
            }
        }
        if now.contains(x) {
            let k = choose|k: int| 0 <= k < now.len() && now[k] == x;
            assert(next[k] == x);
        }
        assert(next[i] == list[i]);
    }
}

} // verus!
