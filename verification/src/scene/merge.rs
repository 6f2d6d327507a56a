//! Merging one scene into another.

use crate::handle_map::HandleMap;
use crate::pool::Handle;
use crate::scene::graph;
use crate::scene::graph::{NodeIndex, Scene};
use crate::scene::node::Node;
use crate::scene::physics::Joint;
use crate::scene::ragdoll::{Ragdoll, RagdollLimb};
use crate::scene::skin::AnimationPlayer;
use crate::scene::update;
use crate::tree;
use vstd::prelude::*;

verus! {

/// `new` is `old` with the bones and bodies of all limbs renamed.
pub open spec fn limb_renamed(
    new: RagdollLimb,
    old: RagdollLimb,
    names: Map<Handle, Handle>,
) -> bool
    decreases old,
{
    &&& new.bone == tree::renamed(names, old.bone)
    &&& new.body == tree::renamed(names, old.body)
    &&& new.children@.len() == old.children@.len()
    &&& forall|i: int|
        0 <= i < old.children@.len() ==> limb_renamed(
            #[trigger] new.children@[i],
            old.children@[i],
            names,
        )
}

/// `new` is `old` with the nodes that it animates renamed.
pub open spec fn player_renamed(
    new: Option<AnimationPlayer>,
    old: Option<AnimationPlayer>,
    names: Map<Handle, Handle>,
) -> bool {
    match (new, old) {
        (None, None) => true,
        (Some(a), Some(b)) => {
            &&& a == (AnimationPlayer { targets: a.targets, ..b })
            &&& a.targets@ == tree::renamed_all(names, b.targets@)
        },
        _ => false,
    }
}

/// `new` is `old` with the nodes of all limbs and the character's body renamed.
pub open spec fn ragdoll_renamed(
    new: Option<Ragdoll>,
    old: Option<Ragdoll>,
    names: Map<Handle, Handle>,
) -> bool {
    match (new, old) {
        (None, None) => true,
        (Some(a), Some(b)) => {
            &&& a == (Ragdoll {
                root: a.root,
                character_body: tree::renamed(names, b.character_body),
                ..b
            })
            &&& limb_renamed(a.root, b.root, names)
        },
        _ => false,
    }
}

/// `new` is `old` with every handle in it renamed; `parent` is not looked at.
pub open spec fn transplanted(new: Node, old: Node, names: Map<Handle, Handle>) -> bool {
    &&& new == (Node {
        parent: new.parent,
        children: new.children,
        skin: new.skin,
        animator: new.animator,
        joint: new.joint,
        ragdoll: new.ragdoll,
        ..old
    })
    &&& new.children@ == tree::renamed_all(names, old.children@)
    &&& match (new.skin, old.skin) {
        (None, None) => true,
        (Some(a), Some(b)) => {
            &&& a.joints@ == tree::renamed_all(names, b.joints@)
            &&& a.inverse_bind == b.inverse_bind
            &&& a.matrices == b.matrices
        },
        _ => false,
    }
    &&& new.joint == match old.joint {
        Some(joint) => Some(
            Joint {
                body1: tree::renamed(names, joint.body1),
                body2: tree::renamed(names, joint.body2),
                dirty: true,
                ..joint
            },
        ),
        None => None,
    }
    &&& player_renamed(new.animator, old.animator, names)
    &&& ragdoll_renamed(new.ragdoll, old.ragdoll, names)
}

fn translate(names: &HandleMap, h: Handle) -> (result: Handle)
    ensures
        result == tree::renamed(names@, h),
{
    match names.get(h) {
        Some(to) => to,
        None => Handle::none(),
    }
}

fn translate_all(names: &HandleMap, list: &mut Vec<Handle>)
    ensures
        final(list)@ == tree::renamed_all(names@, old(list)@),
{
    let mut i: usize = 0;
    let ghost before = list@;
    while i < list.len()
        invariant
            i <= list@.len(),
            list@.len() == before.len(),
            forall|j: int| 0 <= j < i ==> list@[j] == tree::renamed(names@, before[j]),
            forall|j: int| i <= j < list@.len() ==> list@[j] == before[j],
        decreases list@.len() - i,
    {
        let to = translate(names, list[i]);
        list.set(i, to);
        i += 1;
    }
    assert(list@ =~= tree::renamed_all(names@, before));
}

fn translate_limb(names: &HandleMap, limb: &mut RagdollLimb)
    ensures
        limb_renamed(*final(limb), *old(limb), names@),
    decreases *old(limb),
{
    limb.bone = translate(names, limb.bone);
    limb.body = translate(names, limb.body);
    let ghost before = limb.children@;
    let mut i: usize = 0;
    while i < limb.children.len()
        invariant
            i <= limb.children@.len(),
            limb.children@.len() == before.len(),
            before == old(limb).children@,
            limb.bone == tree::renamed(names@, old(limb).bone),
            limb.body == tree::renamed(names@, old(limb).body),
            forall|j: int|
                0 <= j < i ==> limb_renamed(#[trigger] limb.children@[j], before[j], names@),
            forall|j: int| i <= j < before.len() ==> #[trigger] limb.children@[j] == before[j],
        decreases limb.children@.len() - i,
    {
        assert(decreases_to!(*old(limb) => old(limb).children@[i as int]));
        translate_limb(names, &mut limb.children[i]);
        i += 1;
    }
}

fn transplant(node: &mut Node, names: &HandleMap)
    ensures
        transplanted(*final(node), *old(node), names@),
        final(node).parent == tree::renamed(names@, old(node).parent),
{
    node.parent = translate(names, node.parent);
    translate_all(names, &mut node.children);
    match &mut node.skin {
        Some(skin) => {
            translate_all(names, &mut skin.joints);
        },
        None => {},
    }
    match &mut node.joint {
        Some(joint) => {
            let body1 = translate(names, joint.body1);
            let body2 = translate(names, joint.body2);
            joint.set_bodies(body1, body2);
        },
        None => {},
    }
    match &mut node.animator {
        Some(player) => {
            translate_all(names, &mut player.targets);
        },
        None => {},
    }
    match &mut node.ragdoll {
        Some(ragdoll) => {
            translate_limb(names, &mut ragdoll.root);
            ragdoll.character_body = translate(names, ragdoll.character_body);
        },
        None => {},
    }
}

/// `list` with those of `more` behind it that belong there and are not there yet.
pub open spec fn enlisted_all(
    list: Seq<Handle>,
    more: Seq<Handle>,
    nodes: Map<Handle, Node>,
    component: update::Component,
) -> Seq<Handle>
    decreases more.len(),
{
    if more.len() == 0 {
        list
    } else {
        graph::enlisted(
            enlisted_all(list, more.drop_last(), nodes, component),
            more.last(),
            update::carries(nodes, more.last(), component),
        )
    }
}

impl NodeIndex {
    /// `before` with the physics components of many nodes entered.
    pub open spec fn registers_all(
        &self,
        before: NodeIndex,
        more: Seq<Handle>,
        nodes: Map<Handle, Node>,
    ) -> bool {
        &&& self.rigid_bodies@ == enlisted_all(
            before.rigid_bodies@,
            more,
            nodes,
            update::Component::RigidBody,
        )
        &&& self.colliders@ == enlisted_all(
            before.colliders@,
            more,
            nodes,
            update::Component::Collider,
        )
        &&& self.joints@ == enlisted_all(before.joints@, more, nodes, update::Component::Joint)
        &&& self.ragdolls@ == enlisted_all(before.ragdolls@, more, nodes, update::Component::Ragdoll)
        &&& self.drawables == before.drawables
        &&& self.lights == before.lights
        &&& self.cameras == before.cameras
        &&& self.particles == before.particles
        &&& self.skinned == before.skinned
        &&& self.animators == before.animators
        &&& self.sounds == before.sounds
        &&& self.scripts == before.scripts
        &&& self.terrains == before.terrains
    }
}

impl Scene {
    /// This scene is `before` with `source` hung under `p`, its nodes renamed.
    pub open spec fn absorbed(
        &self,
        before: &Scene,
        source: &Scene,
        names: Map<Handle, Handle>,
        p: Handle,
    ) -> bool {
        &&& tree::fresh_names(before.tree(), source.tree(), names)
        &&& forall|h: Handle| #[trigger] names.contains_key(h) ==> !before.nodes.issued(names[h])
        &&& tree::is_grafted(self.tree(), before.tree(), source.tree(), source.root, names, p)
        &&& forall|h: Handle| #[trigger]
            source.nodes@.contains_key(h) ==> transplanted(
                self.nodes@[names[h]],
                source.nodes@[h],
                names,
            )
        &&& forall|x: Handle| #[trigger]
            before.nodes@.contains_key(x) ==> self.nodes@[x] == (Node {
                children: self.nodes@[x].children,
                ..before.nodes@[x]
            })
        &&& self.index.registers_all(
            before.index,
            tree::renamed_all(names, source.nodes.order()),
            self.nodes@,
        )
        &&& self.physics == before.physics
        &&& self.rest_same(before)
    }

    /// Moves all nodes of another scene into this one, under `parent` or, if that is not there,
    /// under the root, and gives the handle of what was the other scene's root. Every handle that
    /// the nodes hold is renamed: parents, children, the joints of skins, the ends of joints, the
    /// targets of animations and the limbs of ragdolls. The other scene's environment is dropped.
    pub fn merge(&mut self, source: Scene, parent: Handle) -> (result: Handle)
        requires
            old(self).wf(),
            source.wf(),
            old(self).nodes.capacity() + source.nodes.order().len() <= u32::MAX,
        ensures
            final(self).wf(),
            exists|names: Map<Handle, Handle>|
                {
                    &&& #[trigger] final(self).absorbed(
                        old(self),
                        &source,
                        names,
                        old(self).or_root(parent),
                    )
                    &&& names.contains_key(source.root)
                    &&& result == names[source.root]
                },
            !old(self).nodes.issued(result),
            final(self).nodes@.contains_key(result),
            final(self).nodes.capacity() <= old(self).nodes.capacity() + source.nodes.order().len(),
    {
        let asked = parent;
        let parent = if self.nodes.is_valid_handle(asked) {
            asked
        } else {
            self.root
        };
        let ghost there = source.nodes@;
        let ghost order = source.nodes.order();
        let ghost here = self.nodes@;
        let ghost t = self.tree();
        let ghost s = source.tree();
        let source_root = source.root;
        let mut other = source.nodes;
        let moved = other.handles();
        let mut names = HandleMap::new();
        let mut fresh: Vec<Handle> = Vec::new();
        proof {
            other.lemma_order();
            self.nodes.lemma_live_is_issued();
        }
        let mut i: usize = 0;
        while i < moved.len()
            invariant
                moved@ == order,
                moved@.no_duplicates(),
                i <= moved@.len(),
                fresh@.len() == i,
                forall|k: int| 0 <= k < moved@.len() ==> there.contains_key(#[trigger] moved@[k]),
                other.wf(),
                forall|x: Handle| #[trigger]
                    other@.contains_key(x) <==> there.contains_key(x) && !moved@.take(
                        i as int,
                    ).contains(x),
                forall|x: Handle| #[trigger] other@.contains_key(x) ==> other@[x] == there[x],
                self.nodes.wf(),
                here == old(self).nodes@,
                forall|x: Handle| #[trigger] here.contains_key(x) ==> old(self).nodes.issued(x),
                forall|x: Handle| #[trigger]
                    self.nodes@.contains_key(x) <==> here.contains_key(x) || fresh@.contains(x),
                forall|x: Handle| #[trigger] here.contains_key(x) ==> self.nodes@[x] == here[x],
                forall|j: int|
                    0 <= j < i ==> {
                        &&& names@[#[trigger] moved@[j]] == fresh@[j]
                        &&& self.nodes@[fresh@[j]] == there[moved@[j]]
                        &&& !old(self).nodes.issued(fresh@[j])
                        &&& fresh@[j] != Handle::none()
                    },
                forall|x: Handle| #[trigger]
                    names@.contains_key(x) <==> moved@.take(i as int).contains(x),
                fresh@.no_duplicates(),
                forall|h: Handle| #[trigger]
                    self.nodes.issued(h) == (old(self).nodes.issued(h) || fresh@.contains(h)),
                self.nodes.capacity() <= old(self).nodes.capacity() + i,
                old(self).nodes.capacity() + moved@.len() <= u32::MAX,
                self.index == old(self).index,
                self.physics == old(self).physics,
                self.rest_same(old(self)),
            decreases moved@.len() - i,
        {
            let from = moved[i];
            proof {
                update::lemma_take_one(moved@, i as int);
                assert(there.contains_key(moved@[i as int]));
            }
            let node = match other.free(from) {
                Some(node) => node,
                None => vstd::pervasive::unreached(),
            };
            let ghost before = fresh@;
            let to = self.nodes.spawn(node);
            assert(!before.contains(to));
            names.insert(from, to);
            fresh.push(to);
            proof {
                assert forall|x: Handle| #[trigger] fresh@.contains(x) <==> before.contains(x) || x
                    == to by {
                    if before.contains(x) {
                        let k = choose|k: int| 0 <= k < before.len() && before[k] == x;
                        assert(fresh@[k] == x);
                    }
                    assert(fresh@[i as int] == to);
                    if fresh@.contains(x) {
                        let k = choose|k: int| 0 <= k < fresh@.len() && fresh@[k] == x;
                        if k < before.len() {
                            assert(before[k] == x);
                        }
                    }
                }
                assert forall|j: int| 0 <= j < i implies before[j] == #[trigger] fresh@[j]
                    && fresh@[j] != to by {
                    assert(before.contains(before[j]));
                }
                assert forall|j: int| 0 <= j < i + 1 implies {
                    &&& names@[#[trigger] moved@[j]] == fresh@[j]
                    &&& self.nodes@[fresh@[j]] == there[moved@[j]]
                    &&& !old(self).nodes.issued(fresh@[j])
                    &&& fresh@[j] != Handle::none()
                } by {
                    if j < i {
                        assert(moved@[j] != moved@[i as int]);
                    }
                }
            }
            i += 1;
        }
        proof {
            assert(moved@.take(i as int) =~= moved@);
            assert forall|h: Handle| #[trigger] s.contains_key(h) <==> names@.contains_key(h) by {
                assert(s.contains_key(h) <==> there.contains_key(h));
                assert(order.contains(h) <==> there.contains_key(h));
            }
            assert(names@.dom() =~= s.dom());
        }
        let ghost spawned = self.nodes@;
        proof {
            assert forall|j: int| 0 <= j < fresh@.len() implies !here.contains_key(
                #[trigger] fresh@[j],
            ) by {
                assert(names@[moved@[j]] == fresh@[j]);
            }
        }
        let mut i: usize = 0;
        while i < fresh.len()
            invariant
                i <= fresh@.len(),
                fresh@.len() == moved@.len(),
                fresh@.no_duplicates(),
                self.nodes.wf(),
                self.nodes@.dom() == spawned.dom(),
                forall|x: Handle| #[trigger]
                    spawned.contains_key(x) <==> here.contains_key(x) || fresh@.contains(x),
                forall|x: Handle| #[trigger] here.contains_key(x) ==> self.nodes@[x] == here[x],
                forall|j: int|
                    0 <= j < fresh@.len() ==> !here.contains_key(#[trigger] fresh@[j]),
                forall|j: int|
                    0 <= j < i ==> transplanted(
                        self.nodes@[#[trigger] fresh@[j]],
                        there[moved@[j]],
                        names@,
                    ) && self.nodes@[fresh@[j]].parent == tree::renamed(
                        names@,
                        there[moved@[j]].parent,
                    ),
                forall|j: int|
                    i <= j < fresh@.len() ==> self.nodes@[#[trigger] fresh@[j]] == there[moved@[j]],
                self.nodes.capacity() <= old(self).nodes.capacity() + moved@.len(),
                forall|h: Handle| #[trigger]
                    self.nodes.issued(h) == (old(self).nodes.issued(h) || fresh@.contains(h)),
                self.index == old(self).index,
                self.physics == old(self).physics,
                self.rest_same(old(self)),
            decreases fresh@.len() - i,
        {
            let h = fresh[i];
            assert(fresh@.contains(h));
            transplant(self.nodes.borrow_mut(h), &names);
            assert(self.nodes@.dom() =~= spawned.dom());
            i += 1;
        }
        let new_root = match names.get(source_root) {
            Some(new_root) => new_root,
            None => vstd::pervasive::unreached(),
        };
        let ghost k = choose|k: int| 0 <= k < moved@.len() && moved@[k] == source_root;
        proof {
            assert(moved@.contains(source_root));
            assert(fresh@[k] == new_root);
            assert(fresh@.contains(new_root));
            assert(!here.contains_key(fresh@[k]));
        }
        self.nodes.borrow_mut(new_root).parent = parent;
        self.nodes.borrow_mut(parent).children.push(new_root);
        let ghost g = self.tree();
        proof {
            assert(self.nodes@.dom() =~= spawned.dom());
            assert forall|a: Handle, b: Handle|
                names@.contains_key(a) && names@.contains_key(b) && #[trigger] names@[a]
                    == #[trigger] names@[b] implies a == b by {
                let x = choose|x: int| 0 <= x < moved@.len() && moved@[x] == a;
                let y = choose|y: int| 0 <= y < moved@.len() && moved@[y] == b;
                assert(names@[moved@[x]] == fresh@[x]);
                assert(names@[moved@[y]] == fresh@[y]);
            }
            assert forall|h: Handle| #[trigger] names@.contains_key(h) implies !t.contains_key(
                names@[h],
            ) && names@[h] != Handle::none() && !old(self).nodes.issued(names@[h]) by {
                let x = choose|x: int| 0 <= x < moved@.len() && moved@[x] == h;
                assert(names@[moved@[x]] == fresh@[x]);
            }
            assert(tree::fresh_names(t, s, names@));
            assert forall|h: Handle| #[trigger] s.contains_key(h) implies g[names@[h]] == (
            crate::tree::Links {
                parent: if h == source_root {
                    parent
                } else {
                    tree::renamed(names@, s[h].parent)
                },
                children: tree::renamed_all(names@, s[h].children),
            }) && transplanted(self.nodes@[names@[h]], there[h], names@) by {
                let x = choose|x: int| 0 <= x < moved@.len() && moved@[x] == h;
                assert(names@[moved@[x]] == fresh@[x]);
                assert(fresh@.contains(fresh@[x]));
                if h != source_root {
                    assert(x != k);
                    assert(fresh@[x] != fresh@[k]);
                }
                assert(!here.contains_key(fresh@[x]));
            }
            assert forall|x: Handle| #[trigger] g.contains_key(x) <==> t.contains_key(x)
                || exists|h: Handle| s.contains_key(h) && #[trigger] names@[h] == x by {
                if fresh@.contains(x) {
                    let j = choose|j: int| 0 <= j < fresh@.len() && fresh@[j] == x;
                    assert(names@[moved@[j]] == fresh@[j]);
                    assert(s.contains_key(moved@[j]));
                }
                if exists|h: Handle| s.contains_key(h) && #[trigger] names@[h] == x {
                    let h = choose|h: Handle| s.contains_key(h) && #[trigger] names@[h] == x;
                    let j = choose|j: int| 0 <= j < moved@.len() && moved@[j] == h;
                    assert(names@[moved@[j]] == fresh@[j]);
                    assert(fresh@.contains(fresh@[j]));
                }
            }
            assert forall|x: Handle| #[trigger] t.contains_key(x) implies g[x] == if x == parent {
                crate::tree::Links {
                    parent: t[parent].parent,
                    children: t[parent].children.push(names@[source_root]),
                }
            } else {
                t[x]
            } by {
                assert(here.contains_key(x));
                assert(x != new_root);
                if x == parent {
                    assert(g[x].children =~= t[parent].children.push(names@[source_root]));
                }
            }
            assert(tree::is_grafted(g, t, s, source_root, names@, parent));
            tree::lemma_grafted(g, t, self.root, s, source_root, names@, parent);
        }
        let ghost attached = self.nodes@;
        let mut i: usize = 0;
        assert(fresh@.take(0) =~= Seq::<Handle>::empty());
        while i < fresh.len()
            invariant
                i <= fresh@.len(),
                self.wf(),
                self.nodes@ == attached,
                forall|x: Handle| #[trigger] fresh@.contains(x) ==> attached.contains_key(x),
                self.index.registers_all(old(self).index, fresh@.take(i as int), attached),
                self.nodes.capacity() <= old(self).nodes.capacity() + moved@.len(),
                self.physics == old(self).physics,
                self.rest_same(old(self)),
            decreases fresh@.len() - i,
        {
            let h = fresh[i];
            assert(fresh@.contains(h));
            assert(fresh@.take(i + 1).drop_last() =~= fresh@.take(i as int));
            self.reindex_physics(h);
            i += 1;
        }
        proof {
            assert(fresh@.take(i as int) =~= fresh@);
            assert(fresh@ =~= tree::renamed_all(names@, order)) by {
                assert forall|j: int| 0 <= j < fresh@.len() implies fresh@[j] == tree::renamed_all(
                    names@,
                    order,
                )[j] by {
                    assert(names@[moved@[j]] == fresh@[j]);
                    assert(moved@.contains(moved@[j]));
                }
            }
            assert(self.tree() == g);
            assert(self.index.registers_all(
                old(self).index,
                tree::renamed_all(names@, source.nodes.order()),
                self.nodes@,
            ));
            assert forall|h: Handle| #[trigger]
                source.nodes@.contains_key(h) implies transplanted(
                self.nodes@[names@[h]],
                source.nodes@[h],
                names@,
            ) by {
                assert(s.contains_key(h));
            }
            assert forall|x: Handle| #[trigger]
                old(self).nodes@.contains_key(x) implies self.nodes@[x] == (Node {
                children: self.nodes@[x].children,
                ..old(self).nodes@[x]
            }) by {
                assert(t.contains_key(x));
            }
            assert(self.absorbed(old(self), &source, names@, old(self).or_root(asked)));
            assert(names@.contains_key(source.root));
        }
        new_root
    }
}

} // verus!
