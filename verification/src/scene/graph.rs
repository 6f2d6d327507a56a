//! The scene and its tree.

use crate::numbers::{Real, Vec3};
use crate::pool::{Handle, Pool};
use crate::scene::cull::SceneCulling;
use crate::scene::debug::Gizmos;
use crate::scene::node::Node;
use crate::scene::physics::{
    BodyHandle, BodyRecord, ColliderHandle, ColliderRecord, JointHandle, JointRecord, PhysicsWorld,
};
use crate::scene::physics2d::FlatBody;
use crate::tree;
use crate::tree::Tree;
use vstd::prelude::*;

verus! {

/// The light that comes from everywhere.
#[derive(Debug, Clone, Copy, PartialEq, Eq, Structural)]
pub struct Environment {
    pub sky: Vec3,
    pub ground: Vec3,
    pub intensity: Real,
}

impl Environment {
    /// No light at all, at full strength.
    #[verifier::allow_in_spec]
    pub fn dark() -> Environment
        returns
            (Environment { sky: Vec3::zero(), ground: Vec3::zero(), intensity: Real::one() }),
    {
        Environment { sky: Vec3::zero(), ground: Vec3::zero(), intensity: Real::one() }
    }
}

/// A flat picture to be drawn this frame.
#[derive(Debug, Clone, Copy, PartialEq, Eq, Structural)]
pub struct SpriteInstance {
    pub texture: u128,
    pub position: Vec3,
    pub layer: i32,
}

/// The nodes that carry each sort of component.
pub struct NodeIndex {
    /// Visible nodes with a mesh, parents first.
    pub drawables: Vec<Handle>,
    pub lights: Vec<Handle>,
    pub cameras: Vec<Handle>,
    pub particles: Vec<Handle>,
    pub skinned: Vec<Handle>,
    pub animators: Vec<Handle>,
    pub rigid_bodies: Vec<Handle>,
    pub colliders: Vec<Handle>,
    pub joints: Vec<Handle>,
    pub ragdolls: Vec<Handle>,
    pub sounds: Vec<Handle>,
    pub scripts: Vec<Handle>,
    pub terrains: Vec<Handle>,
}

/// `list` with `h` behind it, if `h` belongs there and is not there yet.
pub open spec fn enlisted(list: Seq<Handle>, h: Handle, belongs: bool) -> Seq<Handle> {
    if belongs && !list.contains(h) {
        list.push(h)
    } else {
        list
    }
}

/// Whether a list holds a handle.
pub fn lists(list: &Vec<Handle>, h: Handle) -> (result: bool)
    ensures
        result == list@.contains(h),
{
    let mut i: usize = 0;
    while i < list.len()
        invariant
            i <= list@.len(),
            forall|j: int| 0 <= j < i ==> list@[j] != h,
        decreases list@.len() - i,
    {
        if list[i] == h {
            assert(list@[i as int] == h);
            return true;
        }
        i += 1;
    }
    false
}

fn enlist(list: &mut Vec<Handle>, h: Handle, belongs: bool)
    ensures
        final(list)@ == enlisted(old(list)@, h, belongs),
{
    if belongs && !lists(list, h) {
        list.push(h);
    }
}

proof fn lemma_enlisted(list: Seq<Handle>, h: Handle, belongs: bool)
    requires
        list.no_duplicates(),
    ensures
        enlisted(list, h, belongs).no_duplicates(),
{
    let now = enlisted(list, h, belongs);
    assert forall|i: int, j: int| 0 <= i < j < now.len() implies now[i] != now[j] by {
        assert(list[i] == now[i]);
        assert(list.contains(list[i]));
        if j < list.len() {
            assert(list[j] == now[j]);
        }
    }
}

impl NodeIndex {
    /// No list names a node twice.
    pub open spec fn wf(&self) -> bool {
        &&& self.drawables@.no_duplicates()
        &&& self.lights@.no_duplicates()
        &&& self.cameras@.no_duplicates()
        &&& self.particles@.no_duplicates()
        &&& self.skinned@.no_duplicates()
        &&& self.animators@.no_duplicates()
        &&& self.rigid_bodies@.no_duplicates()
        &&& self.colliders@.no_duplicates()
        &&& self.joints@.no_duplicates()
        &&& self.ragdolls@.no_duplicates()
        &&& self.sounds@.no_duplicates()
        &&& self.scripts@.no_duplicates()
        &&& self.terrains@.no_duplicates()
    }

    /// Nothing in any list.
    pub open spec fn empty(&self) -> bool {
        &&& self.drawables@.len() == 0
        &&& self.lights@.len() == 0
        &&& self.cameras@.len() == 0
        &&& self.particles@.len() == 0
        &&& self.skinned@.len() == 0
        &&& self.animators@.len() == 0
        &&& self.rigid_bodies@.len() == 0
        &&& self.colliders@.len() == 0
        &&& self.joints@.len() == 0
        &&& self.ragdolls@.len() == 0
        &&& self.sounds@.len() == 0
        &&& self.scripts@.len() == 0
        &&& self.terrains@.len() == 0
    }

    /// `before` with the physics components of one node entered.
    pub open spec fn registers(&self, before: NodeIndex, h: Handle, node: Node) -> bool {
        &&& self.rigid_bodies@ == enlisted(before.rigid_bodies@, h, node.rigid_body is Some)
        &&& self.colliders@ == enlisted(before.colliders@, h, node.collider is Some)
        &&& self.joints@ == enlisted(before.joints@, h, node.joint is Some)
        &&& self.ragdolls@ == enlisted(before.ragdolls@, h, node.ragdoll is Some)
        &&& self.drawables == before.drawables
        &&& self.lights == before.lights
        &&& self.cameras == before.cameras
        &&& self.particles == before.particles
        &&& self.skinned == before.skinned
        &&& self.animators == before.animators
        &&& self.sounds == before.sounds
        &&& self.scripts == before.scripts
        &&& self.terrains == before.terrains
    }

    pub fn new() -> (result: Self)
        ensures
            result.empty(),
            result.wf(),
    {
        NodeIndex {
            drawables: Vec::new(),
            lights: Vec::new(),
            cameras: Vec::new(),
            particles: Vec::new(),
            skinned: Vec::new(),
            animators: Vec::new(),
            rigid_bodies: Vec::new(),
            colliders: Vec::new(),
            joints: Vec::new(),
            ragdolls: Vec::new(),
            sounds: Vec::new(),
            scripts: Vec::new(),
            terrains: Vec::new(),
        }
    }

    /// Forgets everything.
    pub fn clear(&mut self)
        ensures
            final(self).empty(),
            final(self).wf(),
    {
        self.drawables.clear();
        self.lights.clear();
        self.cameras.clear();
        self.particles.clear();
        self.skinned.clear();
        self.animators.clear();
        self.rigid_bodies.clear();
        self.colliders.clear();
        self.joints.clear();
        self.ragdolls.clear();
        self.sounds.clear();
        self.scripts.clear();
        self.terrains.clear();
    }

    fn register(&mut self, h: Handle, node: &Node)
        requires
            old(self).wf(),
        ensures
            final(self).wf(),
            final(self).registers(*old(self), h, *node),
    {
        proof {
            lemma_enlisted(self.rigid_bodies@, h, node.rigid_body is Some);
            lemma_enlisted(self.colliders@, h, node.collider is Some);
            lemma_enlisted(self.joints@, h, node.joint is Some);
            lemma_enlisted(self.ragdolls@, h, node.ragdoll is Some);
        }
        enlist(&mut self.rigid_bodies, h, node.rigid_body.is_some());
        enlist(&mut self.colliders, h, node.collider.is_some());
        enlist(&mut self.joints, h, node.joint.is_some());
        enlist(&mut self.ragdolls, h, node.ragdoll.is_some());
    }
}

/// The places of all nodes.
pub open spec fn links_of(nodes: Map<Handle, Node>) -> Tree {
    Map::new(|h: Handle| nodes.contains_key(h), |h: Handle| nodes[h].links())
}

/// The same nodes, differing at most in their places.
pub open spec fn only_links_differ(a: Map<Handle, Node>, b: Map<Handle, Node>) -> bool {
    &&& a.dom() == b.dom()
    &&& forall|h: Handle| #[trigger]
        a.contains_key(h) ==> a[h] == (Node { parent: a[h].parent, children: a[h].children, ..b[h] })
}

/// What the solver's table holds.
#[verifier::ext_equal]
pub struct WorldModel {
    pub bodies: Map<Handle, BodyRecord>,
    pub colliders: Map<Handle, ColliderRecord>,
    pub joints: Map<Handle, JointRecord>,
}

impl PhysicsWorld {
    pub open spec fn model(&self) -> WorldModel {
        WorldModel { bodies: self.bodies@, colliders: self.colliders@, joints: self.joints@ }
    }
}

impl WorldModel {
    pub open spec fn without_joint(self, joint: Option<JointHandle>) -> WorldModel {
        match joint {
            Some(joint) => WorldModel { joints: self.joints.remove(joint.raw), ..self },
            None => self,
        }
    }

    pub open spec fn without_collider(self, collider: Option<ColliderHandle>) -> WorldModel {
        match collider {
            Some(collider) => WorldModel { colliders: self.colliders.remove(collider.raw), ..self },
            None => self,
        }
    }

    pub open spec fn without_body(self, body: Option<BodyHandle>) -> WorldModel {
        match body {
            Some(body) if self.bodies.contains_key(body.raw) => WorldModel {
                bodies: self.bodies.remove(body.raw),
                colliders: PhysicsWorld::colliders_off(self.colliders, body),
                joints: PhysicsWorld::joints_off(self.joints, body),
            },
            _ => self,
        }
    }

    /// The table once everything that stands for a node was taken out of it.
    pub open spec fn without_node(self, node: Node) -> WorldModel {
        self.without_joint(
            match node.joint {
                Some(joint) => joint.native,
                None => None,
            },
        ).without_collider(
            match node.collider {
                Some(collider) => collider.native,
                None => None,
            },
        ).without_body(
            match node.rigid_body {
                Some(body) => body.native,
                None => None,
            },
        )
    }

    /// The table once everything that stands for the listed nodes was taken out of it.
    pub open spec fn without_nodes(self, nodes: Map<Handle, Node>, list: Seq<Handle>) -> WorldModel
        decreases list.len(),
    {
        if list.len() == 0 {
            self
        } else {
            self.without_nodes(nodes, list.drop_last()).without_node(nodes[list.last()])
        }
    }
}

/// A scene: nodes in a tree under one root, and what belongs to all of them.
pub struct Scene {
    pub nodes: Pool<Node>,
    pub root: Handle,
    pub environment: Environment,
    pub culling: SceneCulling,
    pub index: NodeIndex,
    pub physics: PhysicsWorld,
    /// The bodies in the plane.
    pub physics2d: Pool<FlatBody>,
    pub sprites: Vec<SpriteInstance>,
    /// The textures that sprites may use.
    pub sprite_textures: Vec<u128>,
    /// Names the filtered environment picture, if one was set.
    pub prefiltered_environment: Option<u64>,
    /// Counts the changes of the environment picture.
    pub environment_version: u64,
    pub gizmos: Gizmos,
}

impl Scene {
    /// The tree of the nodes.
    pub open spec fn tree(&self) -> Tree {
        links_of(self.nodes@)
    }

    pub open spec fn wf(&self) -> bool {
        &&& self.nodes.wf()
        &&& tree::tree_wf(self.tree(), self.root)
        &&& self.physics.wf()
        &&& self.index.wf()
        &&& self.culling.wf()
        &&& self.physics2d.wf()
    }

    /// Everything but the nodes, their index and the solver's table is as in `other`.
    pub open spec fn rest_same(&self, other: &Scene) -> bool {
        &&& self.root == other.root
        &&& self.environment == other.environment
        &&& self.culling == other.culling
        &&& self.physics2d == other.physics2d
        &&& self.sprites == other.sprites
        &&& self.sprite_textures == other.sprite_textures
        &&& self.prefiltered_environment == other.prefiltered_environment
        &&& self.environment_version == other.environment_version
        &&& self.gizmos == other.gizmos
    }

    /// A scene with nothing but its root.
    pub open spec fn fresh(&self) -> bool {
        &&& self.nodes@.dom() == set![self.root]
        &&& self.nodes@[self.root].bare("__root"@)
        &&& self.environment == Environment::dark()
        &&& self.index.empty()
        &&& self.culling.handles@.len() == 0
        &&& self.culling.refits == 0
        &&& self.physics.model() == (WorldModel {
            bodies: Map::empty(),
            colliders: Map::empty(),
            joints: Map::empty(),
        })
        &&& self.physics.events@.len() == 0
        &&& self.physics2d@ == Map::<Handle, FlatBody>::empty()
        &&& self.sprites@.len() == 0
        &&& self.sprite_textures@.len() == 0
        &&& self.prefiltered_environment is None
        &&& self.environment_version == 0
        &&& !self.gizmos.enabled
        &&& self.gizmos.items@.len() == 0
    }

    /// A scene with nothing but its root.
    pub fn new() -> (result: Self)
        ensures
            result.wf(),
            result.fresh(),
            result.nodes.capacity() <= 1,
            result.physics.bodies.capacity() == 0,
            result.physics.colliders.capacity() == 0,
            result.physics.joints.capacity() == 0,
    {
        let mut nodes: Pool<Node> = Pool::new();
        let root = nodes.spawn(Node::new("__root"));
        let result = Scene {
            nodes,
            root,
            environment: Environment::dark(),
            culling: SceneCulling::new(),
            index: NodeIndex::new(),
            physics: PhysicsWorld::new(),
            physics2d: Pool::new(),
            sprites: Vec::new(),
            sprite_textures: Vec::new(),
            prefiltered_environment: None,
            environment_version: 0,
            gizmos: Gizmos::new(),
        };
        proof {
            result.nodes.lemma_live_is_issued();
            let t = result.tree();
            assert(result.nodes@.dom() =~= set![root]);
            assert(tree::ranked(t, map![root => 0nat], 1));
        }
        result
    }

    /// A scene made of nodes that are there. What an update works out is not worked out yet.
    pub fn from_parts(nodes: Pool<Node>, root: Handle, environment: Environment) -> (result: Self)
        requires
            nodes.wf(),
        ensures
            result.nodes == nodes,
            result.root == root,
            result.environment == environment,
            result.index.empty(),
            result.culling.handles@.len() == 0,
            result.culling.refits == 0,
            result.physics.model() == (WorldModel {
                bodies: Map::empty(),
                colliders: Map::empty(),
                joints: Map::empty(),
            }),
            result.environment_version == 0,
            result.wf() <==> tree::tree_wf(links_of(nodes@), root),
    {
        Scene {
            nodes,
            root,
            environment,
            culling: SceneCulling::new(),
            index: NodeIndex::new(),
            physics: PhysicsWorld::new(),
            physics2d: Pool::new(),
            sprites: Vec::new(),
            sprite_textures: Vec::new(),
            prefiltered_environment: None,
            environment_version: 0,
            gizmos: Gizmos::new(),
        }
    }

    pub fn root(&self) -> (result: Handle)
        ensures
            result == self.root,
    {
        self.root
    }

    /// The node, if the handle is valid.
    pub fn try_get(&self, handle: Handle) -> (result: Option<&Node>)
        ensures
            result is Some <==> self.nodes@.contains_key(handle),
            result matches Some(node) ==> *node == self.nodes@[handle],
    {
        self.nodes.try_borrow(handle)
    }

    /// The node for writing, if the handle is valid. The scene stays well formed as long as the
    /// node's place in the tree is left alone.
    pub fn try_get_mut(&mut self, handle: Handle) -> (result: Option<&mut Node>)
        requires
            old(self).wf(),
        ensures
            result is Some <==> old(self).nodes@.contains_key(handle),
            match result {
                Some(node) => {
                    &&& *node == old(self).nodes@[handle]
                    &&& final(self).nodes@ == old(self).nodes@.insert(handle, *final(node))
                    &&& final(node).links() == old(self).nodes@[handle].links()
                        ==> final(self).wf() && final(self).tree() == old(self).tree()
                },
                None => final(self).nodes@ == old(self).nodes@ && final(self).wf(),
            },
            final(self).nodes.capacity() == old(self).nodes.capacity(),
            final(self).rest_same(old(self)),
            final(self).index == old(self).index,
            final(self).physics == old(self).physics,
    {
        proof {
            lemma_place_kept(self.nodes@, handle);
        }
        self.nodes.try_borrow_mut(handle)
    }

    /// Whether `p` is a node; if not, the root takes its place.
    pub open spec fn or_root(&self, p: Handle) -> Handle {
        if self.nodes@.contains_key(p) {
            p
        } else {
            self.root
        }
    }

    /// This scene is `before` with one node added.
    pub open spec fn gained(&self, before: &Scene, h: Handle, node: Node, p: Handle) -> bool {
        &&& self.nodes@.dom() == before.nodes@.dom().insert(h)
        &&& self.nodes@[h] == (Node { parent: p, ..node })
        &&& self.nodes@[p] == (Node { children: self.nodes@[p].children, ..before.nodes@[p] })
        &&& self.nodes@[p].children@ == before.nodes@[p].children@.push(h)
        &&& forall|x: Handle|
            before.nodes@.contains_key(x) && x != p ==> #[trigger] self.nodes@[x]
                == before.nodes@[x]
        &&& self.tree() == tree::grown(before.tree(), h, p)
        &&& self.index.registers(before.index, h, node)
        &&& self.physics == before.physics
        &&& self.rest_same(before)
    }

    /// Adds a node under the root.
    pub fn add_node(&mut self, node: Node) -> (result: Handle)
        requires
            old(self).wf(),
            node.children@.len() == 0,
            old(self).nodes.capacity() < u32::MAX,
        ensures
            final(self).wf(),
            !old(self).nodes.issued(result),
            final(self).gained(old(self), result, node, old(self).root),
            final(self).nodes.capacity() <= old(self).nodes.capacity() + 1,
            forall|h: Handle|
                final(self).nodes.issued(h) == (old(self).nodes.issued(h) || h == result),
    {
        let root = self.root;
        self.add_node_with_parent(node, root)
    }

    /// Adds a node under another, or under the root if the other is not there.
    pub fn add_node_with_parent(&mut self, node: Node, parent: Handle) -> (result: Handle)
        requires
            old(self).wf(),
            node.children@.len() == 0,
            old(self).nodes.capacity() < u32::MAX,
        ensures
            final(self).wf(),
            !old(self).nodes.issued(result),
            final(self).gained(old(self), result, node, old(self).or_root(parent)),
            final(self).nodes.capacity() <= old(self).nodes.capacity() + 1,
            forall|h: Handle|
                final(self).nodes.issued(h) == (old(self).nodes.issued(h) || h == result),
    {
        let parent = if self.nodes.is_valid_handle(parent) {
            parent
        } else {
            self.root
        };
        proof {
            self.nodes.lemma_live_is_issued();
        }
        let mut node = node;
        node.parent = parent;
        let handle = self.nodes.spawn(node);
        self.nodes.borrow_mut(parent).children.push(handle);
        self.index.register(handle, self.nodes.borrow(handle));
        proof {
            let t = old(self).tree();
            tree::lemma_grown(t, self.root, handle, parent);
            assert(self.tree() =~= tree::grown(t, handle, parent)) by {
                let g = tree::grown(t, handle, parent);
                assert forall|x: Handle| self.tree().contains_key(x) implies self.tree()[x]
                    == g[x] by {
                    if x == handle {
                        assert(self.tree()[x].children =~= g[x].children);
                    } else if x == parent {
                        assert(self.tree()[x].children =~= g[x].children);
                    }
                }
            }
            assert(self.nodes@.dom() =~= old(self).nodes@.dom().insert(handle));
        }
        handle
    }

    /// Enters a node's physics components into the index, for components that were put on after
    /// the node was added.
    pub fn reindex_physics(&mut self, handle: Handle)
        requires
            old(self).wf(),
        ensures
            final(self).wf(),
            final(self).nodes == old(self).nodes,
            final(self).physics == old(self).physics,
            final(self).rest_same(old(self)),
            if old(self).nodes@.contains_key(handle) {
                final(self).index.registers(old(self).index, handle, old(self).nodes@[handle])
            } else {
                final(self).index == old(self).index
            },
    {
        if self.nodes.is_valid_handle(handle) {
            self.index.register(handle, self.nodes.borrow(handle));
        }
    }

    pub(crate) fn is_ancestor_or_self(&self, ancestor: Handle, node: Handle) -> (result: bool)
        requires
            self.wf(),
            self.nodes@.contains_key(ancestor),
            self.nodes@.contains_key(node),
        ensures
            result == tree::below(self.tree(), ancestor, node),
    {
        let ghost t = self.tree();
        let ghost (rank, bound) = choose|rank: Map<Handle, nat>, bound: nat| tree::ranked(t, rank, bound);
        let mut current = node;
        loop
            invariant
                self.wf(),
                t == self.tree(),
                tree::ranked(t, rank, bound),
                self.nodes@.contains_key(ancestor),
                self.nodes@.contains_key(current),
                tree::below(t, ancestor, node) == tree::below(t, ancestor, current),
            decreases bound - rank[current],
        {
            if current == ancestor {
                proof {
                    tree::lemma_below_self(t, self.root, ancestor);
                }
                return true;
            }
            proof {
                tree::lemma_below_parent(t, self.root, ancestor, current);
            }
            if current == self.root {
                return false;
            }
            let next = self.nodes.borrow(current).parent;
            proof {
                assert(t[current].parent == next);
                assert(t[next].children.contains(current));
                let k = choose|k: int|
                    0 <= k < t[next].children.len() && t[next].children[k] == current;
                assert(rank[t[next].children[k]] < rank[next]);
                assert(rank[next] < bound);
            }
            current = next;
        }
    }

    /// Takes a node out of its parent's list; its own `parent` stays.
    fn detach_from_parent(&mut self, handle: Handle)
        requires
            old(self).wf(),
            old(self).nodes@.contains_key(handle),
            handle != old(self).root,
        ensures
            final(self).tree() == tree::detached(old(self).tree(), handle),
            only_links_differ(final(self).nodes@, old(self).nodes@),
            final(self).nodes@[handle] == old(self).nodes@[handle],
            final(self).nodes.wf(),
            final(self).nodes.capacity() == old(self).nodes.capacity(),
            forall|h: Handle| final(self).nodes.issued(h) == old(self).nodes.issued(h),
            final(self).index == old(self).index,
            final(self).physics == old(self).physics,
            final(self).rest_same(old(self)),
    {
        let ghost t = self.tree();
        let parent = self.nodes.borrow(handle).parent;
        assert(t[handle].parent == parent);
        assert(parent != handle) by {
            let (rank, bound) = choose|rank: Map<Handle, nat>, bound: nat| tree::ranked(t, rank, bound);
            let k = choose|k: int|
                0 <= k < t[parent].children.len() && t[parent].children[k] == handle;
            assert(rank[t[parent].children[k]] < rank[parent]);
        }
        let mut kept: Vec<Handle> = Vec::new();
        let node = self.nodes.borrow(parent);
        let mut i: usize = 0;
        while i < node.children.len()
            invariant
                i <= node.children@.len(),
                kept@ == tree::without(node.children@.take(i as int), handle),
            decreases node.children@.len() - i,
        {
            let child = node.children[i];
            if child != handle {
                kept.push(child);
            }
            i += 1;
            assert(node.children@.take(i as int).drop_last() =~= node.children@.take(i - 1));
        }
        assert(node.children@.take(i as int) =~= node.children@);
        self.nodes.borrow_mut(parent).children = kept;
        proof {
            assert(self.tree() =~= tree::detached(t, handle)) by {
                assert forall|x: Handle| self.tree().contains_key(x) implies self.tree()[x]
                    == tree::detached(t, handle)[x] by {}
            }
            assert(self.nodes@.dom() =~= old(self).nodes@.dom());
        }
    }

    /// Moving a node is refused for the root, for nodes that are not there, and where it would
    /// close a circle.
    pub open spec fn refuses_link(&self, child: Handle, parent: Handle) -> bool {
        ||| child == self.root
        ||| !self.nodes@.contains_key(child)
        ||| !self.nodes@.contains_key(parent)
        ||| tree::below(self.tree(), child, parent)
    }

    /// Hangs a node with its subtree under another, behind the children that are there.
    pub fn link_nodes(&mut self, child: Handle, parent: Handle)
        requires
            old(self).wf(),
        ensures
            final(self).wf(),
            old(self).refuses_link(child, parent) ==> final(self).nodes == old(self).nodes,
            !old(self).refuses_link(child, parent) ==> final(self).tree() == tree::attached(
                tree::detached(old(self).tree(), child),
                child,
                parent,
            ),
            only_links_differ(final(self).nodes@, old(self).nodes@),
            final(self).nodes.capacity() == old(self).nodes.capacity(),
            forall|h: Handle| final(self).nodes.issued(h) == old(self).nodes.issued(h),
            final(self).index == old(self).index,
            final(self).physics == old(self).physics,
            final(self).rest_same(old(self)),
    {
        if child == self.root || !self.nodes.is_valid_handle(child) || !self.nodes.is_valid_handle(
            parent,
        ) || self.is_ancestor_or_self(child, parent) {
            return;
        }
        proof {
            tree::lemma_relinked(self.tree(), self.root, child, parent);
            tree::lemma_below_self(self.tree(), self.root, child);
        }
        self.detach_from_parent(child);
        let ghost d = self.tree();
        self.nodes.borrow_mut(child).parent = parent;
        self.nodes.borrow_mut(parent).children.push(child);
        proof {
            assert(self.tree() =~= tree::attached(d, child, parent)) by {
                assert forall|x: Handle| self.tree().contains_key(x) implies self.tree()[x]
                    == tree::attached(d, child, parent)[x] by {
                    assert(self.tree()[x].children =~= tree::attached(d, child, parent)[x].children);
                }
            }
            assert(self.nodes@.dom() =~= old(self).nodes@.dom());
        }
    }

    /// A node and everything under it, parents first.
    pub fn subtree(&self, handle: Handle) -> (result: Vec<Handle>)
        requires
            self.wf(),
            self.nodes@.contains_key(handle),
        ensures
            result@ == tree::preorder(self.tree(), handle),
    {
        let ghost t = self.tree();
        let mut result: Vec<Handle> = Vec::new();
        let mut stack: Vec<Handle> = Vec::new();
        stack.push(handle);
        assert(tree::preorder_stack(t, stack@) =~= tree::preorder(t, handle)) by {
            assert(stack@.drop_last() =~= Seq::<Handle>::empty());
            assert(tree::preorder_stack(t, stack@.drop_last()) =~= Seq::<Handle>::empty());
        }
        while stack.len() > 0
            invariant
                self.wf(),
                t == self.tree(),
                result@ + tree::preorder_stack(t, stack@) == tree::preorder(t, handle),
                forall|i: int| 0 <= i < stack@.len() ==> t.contains_key(#[trigger] stack@[i]),
            decreases tree::preorder_stack(t, stack@).len(),
        {
            let ghost full = stack@;
            let current = stack.pop().unwrap();
            let ghost rest = stack@;
            assert(rest =~= full.drop_last());
            assert(t.contains_key(current)) by {
                assert(full[full.len() - 1] == current);
            }
            proof {
                tree::lemma_preorder_unfold(t, self.root, current);
            }
            result.push(current);
            let node = self.nodes.borrow(current);
            let ghost kids = t[current].children;
            let mut i: usize = node.children.len();
            assert(kids.skip(i as int) =~= Seq::<Handle>::empty());
            assert(tree::preorder_all(t, kids.skip(i as int)) =~= Seq::<Handle>::empty());
            while i > 0
                invariant
                    self.wf(),
                    t == self.tree(),
                    t.contains_key(current),
                    kids == t[current].children,
                    kids == node.children@,
                    i <= kids.len(),
                    tree::preorder_stack(t, stack@) == tree::preorder_all(t, kids.skip(i as int))
                        + tree::preorder_stack(t, rest),
                    forall|i: int| 0 <= i < stack@.len() ==> t.contains_key(#[trigger] stack@[i]),
                decreases i,
            {
                proof {
                    tree::lemma_push_child(t, kids, stack@, i as int);
                    assert(t.contains_key(kids[i - 1]));
                }
                stack.push(node.children[i - 1]);
                i -= 1;
            }
            assert(kids.skip(0) =~= kids);
            assert(result@ + tree::preorder_stack(t, stack@) =~= tree::preorder(t, handle));
        }
        assert(result@ =~= tree::preorder(t, handle));
        result
    }

    fn despawn_physics_of(&mut self, handle: Handle)
        requires
            old(self).nodes.wf(),
            old(self).physics.wf(),
            old(self).nodes@.contains_key(handle),
        ensures
            final(self).physics.wf(),
            final(self).physics.model() == old(self).physics.model().without_node(
                old(self).nodes@[handle],
            ),
            final(self).physics.events == old(self).physics.events,
            final(self).physics.bodies.capacity() == old(self).physics.bodies.capacity(),
            final(self).physics.colliders.capacity() == old(self).physics.colliders.capacity(),
            final(self).physics.joints.capacity() == old(self).physics.joints.capacity(),
            final(self).nodes == old(self).nodes,
            final(self).index == old(self).index,
            final(self).rest_same(old(self)),
    {
        let node = self.nodes.borrow(handle);
        let joint = match &node.joint {
            Some(joint) => joint.native,
            None => None,
        };
        let collider = match &node.collider {
            Some(collider) => collider.native,
            None => None,
        };
        let body = match &node.rigid_body {
            Some(body) => body.native,
            None => None,
        };
        if let Some(joint) = joint {
            self.physics.remove_joint(joint);
        }
        if let Some(collider) = collider {
            self.physics.remove_collider(collider);
        }
        if let Some(body) = body {
            let ghost before = self.physics.model();
            self.physics.remove_body(body);
            assert(self.physics.model() =~= before.without_body(Some(body)));
        }
    }

    /// This scene is `before` with a node and its subtree removed, and everything that stood for
    /// them in the solver's table. It is `before` itself if there was no such node or it is the root.
    pub open spec fn lost(&self, before: &Scene, h: Handle) -> bool {
        &&& h == before.root || !before.nodes@.contains_key(h) ==> *self == *before
        &&& h != before.root && before.nodes@.contains_key(h) ==> {
            &&& self.tree() == tree::pruned(before.tree(), h)
            &&& forall|x: Handle| #[trigger]
                self.nodes@.contains_key(x) ==> self.nodes@[x] == (Node {
                    parent: self.nodes@[x].parent,
                    children: self.nodes@[x].children,
                    ..before.nodes@[x]
                })
            &&& self.physics.model() == before.physics.model().without_nodes(
                before.nodes@,
                tree::preorder(before.tree(), h),
            )
        }
        &&& self.index == before.index
        &&& self.physics.events == before.physics.events
        &&& self.nodes.capacity() == before.nodes.capacity()
        &&& self.physics.bodies.capacity() == before.physics.bodies.capacity()
        &&& self.physics.colliders.capacity() == before.physics.colliders.capacity()
        &&& self.physics.joints.capacity() == before.physics.joints.capacity()
        &&& forall|x: Handle| self.nodes.issued(x) == before.nodes.issued(x)
        &&& self.rest_same(before)
    }

    /// Removes a node with its subtree, and everything that stands for them in the solver's table.
    /// The root stays, and nodes that are not there are ignored.
    pub fn remove_node(&mut self, handle: Handle)
        requires
            old(self).wf(),
        ensures
            final(self).wf(),
            final(self).lost(old(self), handle),
    {
        if handle == self.root || !self.nodes.is_valid_handle(handle) {
            return;
        }
        let ghost t = self.tree();
        let doomed = self.subtree(handle);
        proof {
            tree::lemma_pruned(t, self.root, handle);
            tree::lemma_preorder_no_duplicates(t, self.root, handle);
            tree::lemma_below_self(t, self.root, handle);
            tree::lemma_below_parent(t, self.root, handle, self.root);
        }
        self.detach_from_parent(handle);
        let ghost d = self.nodes@;
        let ghost world = self.physics.model();
        let mut i: usize = 0;
        assert(doomed@.take(0) =~= Seq::<Handle>::empty());
        while i < doomed.len()
            invariant
                self.nodes.wf(),
                self.physics.wf(),
                t == old(self).tree(),
                doomed@ == tree::preorder(t, handle),
                doomed@.no_duplicates(),
                i <= doomed@.len(),
                only_links_differ(d, old(self).nodes@),
                forall|x: Handle|
                    #[trigger] self.nodes@.contains_key(x) <==> d.contains_key(x)
                        && !doomed@.take(i as int).contains(x),
                forall|x: Handle| #[trigger] self.nodes@.contains_key(x) ==> self.nodes@[x] == d[x],
                forall|x: Handle| #[trigger] tree::below(t, handle, x) ==> t.contains_key(x),
                self.physics.model() == world.without_nodes(
                    old(self).nodes@,
                    doomed@.take(i as int),
                ),
                world == old(self).physics.model(),
                self.index == old(self).index,
                self.physics.events == old(self).physics.events,
                self.nodes.capacity() == old(self).nodes.capacity(),
                self.physics.bodies.capacity() == old(self).physics.bodies.capacity(),
                self.physics.colliders.capacity() == old(self).physics.colliders.capacity(),
                self.physics.joints.capacity() == old(self).physics.joints.capacity(),
                forall|h: Handle| self.nodes.issued(h) == old(self).nodes.issued(h),
                self.rest_same(old(self)),
            decreases doomed@.len() - i,
        {
            let h = doomed[i];
            proof {
                assert(tree::below(t, handle, h));
                assert(t.contains_key(h));
                assert(!doomed@.take(i as int).contains(h)) by {
                    if doomed@.take(i as int).contains(h) {
                        let k = choose|k: int|
                            0 <= k < doomed@.take(i as int).len() && doomed@.take(i as int)[k] == h;
                        assert(doomed@[k] == h);
                    }
                }
                assert(d.contains_key(h));
                assert(self.nodes@.contains_key(h));
                let next = doomed@.take(i + 1);
                assert(next.drop_last() =~= doomed@.take(i as int));
                assert(next.last() == h);
                assert forall|x: Handle| #[trigger] next.contains(x) <==> doomed@.take(
                    i as int,
                ).contains(x) || x == h by {
                    if next.contains(x) {
                        let k = choose|k: int| 0 <= k < next.len() && next[k] == x;
                        if k < i {
                            assert(doomed@.take(i as int)[k] == x);
                        }
                    }
                    if doomed@.take(i as int).contains(x) {
                        let k = choose|k: int|
                            0 <= k < doomed@.take(i as int).len() && doomed@.take(i as int)[k] == x;
                        assert(next[k] == x);
                    }
                    assert(next[i as int] == h);
                }
                lemma_without_node_links(self.physics.model(), d[h], old(self).nodes@[h]);
            }
            self.despawn_physics_of(h);
            let _ = self.nodes.free(h);
            i += 1;
        }
        assert(doomed@.take(i as int) =~= doomed@);
        proof {
            assert(self.tree() =~= tree::pruned(t, handle)) by {
                assert forall|x: Handle|
                    self.tree().contains_key(x) <==> tree::pruned(t, handle).contains_key(x) by {
                    assert(tree::below(t, handle, x) == doomed@.contains(x));
                }
                assert forall|x: Handle| self.tree().contains_key(x) implies self.tree()[x]
                    == tree::pruned(t, handle)[x] by {
                    assert(links_of(d) == tree::detached(t, handle));
                    assert(links_of(d)[x] == d[x].links());
                    assert(self.nodes@.contains_key(x));
                }
            }
        }
    }

    /// `found` is the first node of a name, by slot; there is none only if no node has it.
    pub open spec fn finds(&self, name: Seq<char>, found: Option<Handle>) -> bool {
        match found {
            Some(h) => exists|k: int|
                {
                    &&& 0 <= k < self.nodes.order().len()
                    &&& #[trigger] self.nodes.order()[k] == h
                    &&& self.nodes@[h].name@ == name
                    &&& forall|j: int|
                        0 <= j < k ==> self.nodes@[#[trigger] self.nodes.order()[j]].name@ != name
                },
            None => forall|h: Handle| #[trigger]
                self.nodes@.contains_key(h) ==> self.nodes@[h].name@ != name,
        }
    }

    /// The first node of that name, by slot.
    pub fn find_by_name(&self, name: &str) -> (result: Option<Handle>)
        requires
            self.nodes.wf(),
        ensures
            self.finds(name@, result),
            result matches Some(h) ==> self.nodes@.contains_key(h),
    {
        let wanted = name.to_owned();
        let handles = self.nodes.handles();
        proof {
            self.nodes.lemma_order();
        }
        let mut i: usize = 0;
        while i < handles.len()
            invariant
                self.nodes.wf(),
                i <= handles@.len(),
                handles@ == self.nodes.order(),
                wanted@ == name@,
                forall|k: int| 0 <= k < handles@.len() ==> self.nodes@.contains_key(
                    #[trigger] self.nodes.order()[k],
                ),
                forall|j: int|
                    0 <= j < i ==> self.nodes@[#[trigger] self.nodes.order()[j]].name@ != name@,
            decreases handles@.len() - i,
        {
            let h = handles[i];
            assert(self.nodes.order()[i as int] == h);
            if self.nodes.borrow(h).name == wanted {
                return Some(h);
            }
            i += 1;
        }
        assert forall|h: Handle| #[trigger] self.nodes@.contains_key(h) implies self.nodes@[h].name@
            != name@ by {
            assert(self.nodes.order().contains(h));
        }
        None
    }
}

proof fn lemma_without_node_links(world: WorldModel, a: Node, b: Node)
    requires
        a == (Node { parent: a.parent, children: a.children, ..b }),
    ensures
        world.without_node(a) == world.without_node(b),
{
}

/// Writing a node without touching its place leaves the tree as it is.
pub proof fn lemma_place_kept(nodes: Map<Handle, Node>, h: Handle)
    ensures
        forall|node: Node|
            nodes.contains_key(h) && node.links() == nodes[h].links() ==> links_of(
                #[trigger] nodes.insert(h, node),
            ) == links_of(nodes),
{
    assert forall|node: Node|
        nodes.contains_key(h) && node.links() == nodes[h].links() implies links_of(
        #[trigger] nodes.insert(h, node),
    ) == links_of(nodes) by {
        assert(links_of(nodes.insert(h, node)) =~= links_of(nodes));
    }
}

impl Default for Scene {
    fn default() -> (result: Self)
        ensures
            result.wf(),
            result.fresh(),
    {
        Scene::new()
    }
}

} // verus!
