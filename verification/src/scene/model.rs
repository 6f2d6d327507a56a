//! Bringing imported models into a scene.
//!
//! A model is unfolded into a plan first, which lists the nodes to be made, parents first; the
//! scene then grows by one node after the other.

use crate::numbers::{Mat4, Transform};
use crate::pool::Handle;
use crate::scene::graph;
use crate::scene::graph::Scene;
use crate::scene::mesh::{Material, Mesh};
use crate::scene::node::Node;
use crate::scene::skin;
use crate::scene::skin::{AnimationPlayer, Skin};
use crate::text;
use vstd::prelude::*;

verus! {

/// One piece of a node's shape, with its material.
#[derive(Debug, Clone, Copy, PartialEq, Eq, Structural)]
pub struct MeshPart {
    pub mesh: usize,
    pub material: Option<usize>,
}

/// A node of a model.
#[derive(Debug)]
pub struct ModelNode {
    pub name: String,
    pub transform: Transform,
    pub children: Vec<usize>,
    pub parts: Vec<MeshPart>,
    pub skin: Option<usize>,
}

/// The joints of a model that pull a mesh along.
#[derive(Debug)]
pub struct ModelSkin {
    pub joints: Vec<usize>,
    pub inverse_bind: Vec<Mat4>,
}

/// A model as it was imported. Everything in it is referred to by number.
#[derive(Debug)]
pub struct Model {
    pub meshes: Vec<Mesh>,
    pub materials: Vec<Material>,
    pub nodes: Vec<ModelNode>,
    pub roots: Vec<usize>,
    pub skins: Vec<ModelSkin>,
    /// The names of its animations.
    pub animations: Vec<String>,
}

/// What one node of the scene is made from.
#[derive(Debug, Clone, Copy, PartialEq, Eq, Structural)]
pub enum Origin {
    /// It gathers the roots of a model that has not exactly one.
    Container,
    /// A node of the model.
    Node { index: usize },
    /// One piece of a node that has several.
    Part { index: usize, part: usize },
}

/// One node to be made, under an earlier one of the plan or under the model's parent.
#[derive(Debug, Clone, Copy, PartialEq, Eq, Structural)]
pub struct Birth {
    pub origin: Origin,
    pub parent: Option<usize>,
}

impl Model {
    /// No node hangs under itself: children rank below their parents.
    pub open spec fn ranked(&self, rank: Seq<nat>) -> bool {
        &&& rank.len() == self.nodes@.len()
        &&& forall|i: int| 0 <= i < rank.len() ==> #[trigger] rank[i] < self.nodes@.len()
        &&& forall|i: int, k: int|
            0 <= i < self.nodes@.len() && 0 <= k < self.nodes@[i].children@.len() ==> {
                let child = #[trigger] self.nodes@[i].children@[k];
                child < self.nodes@.len() ==> rank[child as int] < rank[i]
            }
    }

    /// The births of the first `n` pieces of a node; pieces without a mesh are left out.
    pub open spec fn part_births(&self, index: usize, parent: int, n: nat) -> Seq<Birth>
        decreases n,
    {
        if n == 0 {
            Seq::empty()
        } else {
            let front = self.part_births(index, parent, (n - 1) as nat);
            if self.nodes@[index as int].parts@[n - 1].mesh < self.meshes@.len() {
                front.push(
                    Birth {
                        origin: Origin::Part { index, part: (n - 1) as usize },
                        parent: Some(parent as usize),
                    },
                )
            } else {
                front
            }
        }
    }

    /// A node itself, and its pieces if it has not exactly one.
    pub open spec fn own_births(&self, index: usize, parent: Option<usize>, start: nat) -> Seq<Birth> {
        let parts = self.nodes@[index as int].parts@;
        seq![Birth { origin: Origin::Node { index }, parent }] + if parts.len() == 1 {
            Seq::empty()
        } else {
            self.part_births(index, start as int, parts.len())
        }
    }

    /// The births of a node and everything under it, `fuel` levels deep. `start` is how many there
    /// are before.
    pub open spec fn births(
        &self,
        index: usize,
        parent: Option<usize>,
        start: nat,
        fuel: nat,
    ) -> Seq<Birth>
        decreases fuel, 0nat,
    {
        if fuel == 0 || index >= self.nodes@.len() {
            Seq::empty()
        } else {
            let own = self.own_births(index, parent, start);
            own + self.births_of(
                self.nodes@[index as int].children@,
                Some(start as usize),
                start + own.len(),
                (fuel - 1) as nat,
            )
        }
    }

    /// The births of several nodes, one after the other.
    pub open spec fn births_of(
        &self,
        list: Seq<usize>,
        parent: Option<usize>,
        start: nat,
        fuel: nat,
    ) -> Seq<Birth>
        decreases fuel, list.len() + 1,
    {
        if list.len() == 0 {
            Seq::empty()
        } else {
            let front = self.births_of(list.drop_last(), parent, start, fuel);
            front + self.births(list.last(), parent, start + front.len(), fuel)
        }
    }

    /// The whole plan. A model with exactly one root stands for itself; the roots of any other are
    /// gathered in a container.
    pub open spec fn plan(&self) -> Seq<Birth> {
        let depth = self.nodes@.len();
        if self.roots@.len() == 1 {
            self.births(self.roots@[0], None, 0, depth)
        } else {
            seq![Birth { origin: Origin::Container, parent: None }] + self.births_of(
                self.roots@,
                Some(0),
                1,
                depth,
            )
        }
    }

    /// The mesh with a number.
    pub open spec fn mesh_at(&self, index: usize) -> Option<Mesh> {
        if index < self.meshes@.len() {
            Some(self.meshes@[index as int])
        } else {
            None
        }
    }

    /// The material that a piece asks for.
    pub open spec fn material_at(&self, index: Option<usize>) -> Option<Material> {
        match index {
            Some(index) if index < self.materials@.len() => Some(self.materials@[index as int]),
            _ => None,
        }
    }

    /// Whether a node is made as its birth says.
    pub open spec fn bears(&self, birth: Birth, node: Node) -> bool {
        &&& node.unadorned()
        &&& node.morph_weights@ == match node.mesh {
            Some(mesh) => mesh.default_weights(),
            None => Seq::empty(),
        }
        &&& match birth.origin {
            Origin::Container => {
                &&& node.name@ == "Model"@
                &&& node.transform == Transform::identity()
                &&& node.mesh is None
                &&& node.material is None
            },
            Origin::Node { index } => {
                let source = self.nodes@[index as int];
                &&& node.name@ == if source.name@.len() == 0 {
                    "Node"@ + text::decimal(index as nat)
                } else {
                    source.name@
                }
                &&& node.transform == source.transform
                &&& node.mesh == if source.parts@.len() == 1 {
                    self.mesh_at(source.parts@[0].mesh)
                } else {
                    None
                }
                &&& node.material == if source.parts@.len() == 1 {
                    self.material_at(source.parts@[0].material)
                } else {
                    None
                }
            },
            Origin::Part { index, part } => {
                let piece = self.nodes@[index as int].parts@[part as int];
                &&& node.name@ == "Part"@ + text::decimal(part as nat)
                &&& node.transform == Transform::identity()
                &&& node.mesh == self.mesh_at(piece.mesh)
                &&& node.material == self.material_at(piece.material)
            },
        }
    }

    /// Everything that a birth refers to is there.
    pub open spec fn sound(&self, birth: Birth) -> bool {
        match birth.origin {
            Origin::Container => true,
            Origin::Node { index } => index < self.nodes@.len(),
            Origin::Part { index, part } => index < self.nodes@.len() && part
                < self.nodes@[index as int].parts@.len(),
        }
    }
}

/// Each birth is sound, and its parent is born before it.
spec fn plan_ok(model: &Model, plan: Seq<Birth>) -> bool {
    forall|k: int|
        0 <= k < plan.len() ==> model.sound(#[trigger] plan[k]) && (plan[k].parent matches Some(j)
            ==> j < k)
}

impl Model {
    fn plan_node(&self, index: usize, parent: Option<usize>, fuel: usize, plan: &mut Vec<Birth>)
        requires
            plan_ok(self, old(plan)@),
            parent matches Some(j) ==> j < old(plan)@.len(),
        ensures
            final(plan)@ == old(plan)@ + self.births(
                index,
                parent,
                old(plan)@.len(),
                fuel as nat,
            ),
            plan_ok(self, final(plan)@),
        decreases fuel, 0nat,
    {
        if fuel == 0 || index >= self.nodes.len() {
            assert(plan@ =~= old(plan)@ + self.births(index, parent, old(plan)@.len(), fuel as nat));
            return;
        }
        let source = &self.nodes[index];
        let me: usize = plan.len();
        let ghost begin = plan@;
        let ghost own = self.own_births(index, parent, begin.len());
        plan.push(Birth { origin: Origin::Node { index }, parent });
        let ghost head = plan@;
        if source.parts.len() != 1 {
            let mut part: usize = 0;
            while part < source.parts.len()
                invariant
                    index < self.nodes@.len(),
                    *source == self.nodes@[index as int],
                    part <= source.parts@.len(),
                    me < head.len(),
                    plan@ == head + self.part_births(index, me as int, part as nat),
                    plan_ok(self, plan@),
                decreases source.parts@.len() - part,
            {
                let ghost before = plan@;
                if source.parts[part].mesh < self.meshes.len() {
                    plan.push(
                        Birth { origin: Origin::Part { index, part }, parent: Some(me) },
                    );
                }
                part += 1;
                assert(plan@ =~= head + self.part_births(index, me as int, part as nat));
            }
        }
        assert(plan@ =~= begin + own);
        self.plan_nodes(&source.children, source.children.len(), Some(me), fuel - 1, plan);
        proof {
            assert(source.children@.take(source.children@.len() as int) =~= source.children@);
            assert(plan@ =~= begin + self.births(index, parent, begin.len(), fuel as nat));
        }
    }

    fn plan_nodes(
        &self,
        list: &Vec<usize>,
        count: usize,
        parent: Option<usize>,
        fuel: usize,
        plan: &mut Vec<Birth>,
    )
        requires
            count <= list@.len(),
            plan_ok(self, old(plan)@),
            parent matches Some(j) ==> j < old(plan)@.len(),
        ensures
            final(plan)@ == old(plan)@ + self.births_of(
                list@.take(count as int),
                parent,
                old(plan)@.len(),
                fuel as nat,
            ),
            plan_ok(self, final(plan)@),
        decreases fuel, count + 1,
    {
        let ghost begin = plan@;
        if count == 0 {
            assert(list@.take(0) =~= Seq::<usize>::empty());
            assert(plan@ =~= begin + Seq::<Birth>::empty());
            return;
        }
        self.plan_nodes(list, count - 1, parent, fuel, plan);
        let ghost front = self.births_of(
            list@.take(count - 1),
            parent,
            begin.len(),
            fuel as nat,
        );
        self.plan_node(list[count - 1], parent, fuel, plan);
        proof {
            assert(list@.take(count as int).drop_last() =~= list@.take(count - 1));
            assert(plan@ =~= begin + self.births_of(
                list@.take(count as int),
                parent,
                begin.len(),
                fuel as nat,
            ));
        }
    }

    /// Lists the nodes that the model unfolds into, parents first.
    pub fn unfold(&self) -> (result: Vec<Birth>)
        ensures
            result@ == self.plan(),
            forall|k: int|
                0 <= k < result@.len() ==> self.sound(#[trigger] result@[k]) && (
                result@[k].parent matches Some(j) ==> j < k),
    {
        let mut plan: Vec<Birth> = Vec::new();
        let depth: usize = self.nodes.len();
        if self.roots.len() == 1 {
            self.plan_node(self.roots[0], None, depth, &mut plan);
            assert(plan@ =~= self.plan());
        } else {
            plan.push(Birth { origin: Origin::Container, parent: None });
            self.plan_nodes(&self.roots, self.roots.len(), Some(0), depth, &mut plan);
            proof {
                assert(self.roots@.take(self.roots@.len() as int) =~= self.roots@);
                assert(plan@ =~= self.plan());
            }
        }
        plan
    }

    fn material_for(&self, index: Option<usize>) -> (result: Option<Material>)
        ensures
            result == self.material_at(index),
    {
        match index {
            Some(index) => {
                if index < self.materials.len() {
                    Some(self.materials[index])
                } else {
                    None
                }
            },
            None => None,
        }
    }

    fn dress(&self, node: Node, part: MeshPart) -> (result: Node)
        requires
            node.unadorned(),
            node.mesh is None,
            node.material is None,
            node.morph_weights@.len() == 0,
        ensures
            result.unadorned(),
            result.name == node.name,
            result.transform == node.transform,
            result.mesh == self.mesh_at(part.mesh),
            result.material == self.material_at(part.material),
            result.morph_weights@ == match result.mesh {
                Some(mesh) => mesh.default_weights(),
                None => Seq::empty(),
            },
    {
        let mut node = node;
        assert(node.morph_weights@ =~= Seq::empty());
        if part.mesh < self.meshes.len() {
            node = node.with_mesh(self.meshes[part.mesh].clone());
        }
        if let Some(material) = self.material_for(part.material) {
            node = node.with_material(material);
        }
        node
    }

    fn bear(&self, birth: Birth) -> (result: Node)
        requires
            self.sound(birth),
        ensures
            self.bears(birth, result),
    {
        match birth.origin {
            Origin::Container => Node::new("Model"),
            Origin::Node { index } => {
                let source = &self.nodes[index];
                let name = if source.name.as_str().unicode_len() == 0 {
                    text::joined("Node", text::number(index as u64).as_str())
                } else {
                    source.name.clone()
                };
                let mut node = Node::new(name.as_str());
                node.transform = source.transform;
                if source.parts.len() == 1 {
                    self.dress(node, source.parts[0])
                } else {
                    node
                }
            },
            Origin::Part { index, part } => {
                let name = text::joined("Part", text::number(part as u64).as_str());
                self.dress(Node::new(name.as_str()), self.nodes[index].parts[part])
            },
        }
    }
}

/// One node was born.
pub open spec fn birth_step(
    before: &Scene,
    after: &Scene,
    model: &Model,
    birth: Birth,
    h: Handle,
    parent: Handle,
) -> bool {
    &&& !before.nodes@.contains_key(h)
    &&& exists|node: Node| #[trigger]
        after.gained(before, h, node, before.or_root(parent)) && model.bears(birth, node)
}

/// The handle that a birth hangs under.
pub open spec fn birth_parent(birth: Birth, handles: Seq<Handle>, outer: Handle) -> Handle {
    match birth.parent {
        Some(j) => handles[j as int],
        None => outer,
    }
}

/// The scene grew by the plan: `scenes` holds what there was before each birth and what there is
/// at the end, and `handles` the handles that were given out.
pub open spec fn grown_by(
    scenes: Seq<Scene>,
    handles: Seq<Handle>,
    model: &Model,
    plan: Seq<Birth>,
    outer: Handle,
) -> bool {
    &&& scenes.len() == plan.len() + 1
    &&& handles.len() == plan.len()
    &&& forall|k: int|
        0 <= k < plan.len() ==> birth_step(
            &scenes[k],
            &scenes[k + 1],
            model,
            #[trigger] plan[k],
            handles[k],
            birth_parent(plan[k], handles, outer),
        )
}

/// The handle for a node of the model: that of its last birth, if it has one.
pub open spec fn handle_for(plan: Seq<Birth>, handles: Seq<Handle>, index: int) -> Handle
    decreases plan.len(),
{
    if plan.len() == 0 {
        Handle::none()
    } else if plan.last().origin == (Origin::Node { index: index as usize }) {
        handles[plan.len() - 1]
    } else {
        handle_for(plan.drop_last(), handles, index)
    }
}

/// The handles for all nodes of the model.
pub open spec fn mapping_of(model: &Model, plan: Seq<Birth>, handles: Seq<Handle>) -> Seq<Handle> {
    Seq::new(model.nodes@.len(), |i: int| handle_for(plan, handles, i))
}

/// Whether a node of the model has a skin that there is.
pub open spec fn has_skin(model: &Model, index: int) -> bool {
    model.nodes@[index].skin matches Some(skin) && skin < model.skins@.len()
}

/// Whether the skin of a node of the model goes onto a node of the scene: onto the node made from
/// it if that has a mesh, or else onto those of its children that have one.
pub open spec fn skin_goes(nodes: Map<Handle, Node>, mapping: Seq<Handle>, index: int, h: Handle) -> bool {
    let own = mapping[index];
    &&& nodes.contains_key(own)
    &&& nodes.contains_key(h)
    &&& nodes[h].mesh is Some
    &&& if nodes[own].mesh is Some {
        h == own
    } else {
        nodes[own].children@.contains(h)
    }
}

/// The last of the first `n` nodes of the model whose skin goes onto a node of the scene.
pub open spec fn skin_from(
    model: &Model,
    nodes: Map<Handle, Node>,
    mapping: Seq<Handle>,
    h: Handle,
    n: nat,
) -> Option<int>
    decreases n,
{
    if n == 0 {
        None
    } else if has_skin(model, n - 1) && skin_goes(nodes, mapping, n - 1, h) {
        Some(n - 1)
    } else {
        skin_from(model, nodes, mapping, h, (n - 1) as nat)
    }
}

/// Whether a skin is that of the model, with the joints of this scene.
pub open spec fn skin_made(skin: Skin, source: ModelSkin, mapping: Seq<Handle>) -> bool {
    let count = skin::shorter(source.joints@.len(), source.inverse_bind@.len()) as int;
    &&& skin.wf()
    &&& skin.joints@.len() == count
    &&& forall|i: int|
        0 <= i < count ==> #[trigger] skin.joints@[i] == {
            let joint = source.joints@[i];
            if joint < mapping.len() {
                mapping[joint as int]
            } else {
                Handle::none()
            }
        }
    &&& skin.inverse_bind@ == source.inverse_bind@.take(count)
    &&& forall|i: int| 0 <= i < count ==> skin.matrices@[i] == Mat4::identity()
}

/// What has become of a node once the skins of the first `n` nodes of the model were put on.
pub open spec fn clad(
    node: Node,
    before: Node,
    model: &Model,
    nodes: Map<Handle, Node>,
    mapping: Seq<Handle>,
    h: Handle,
    n: nat,
) -> bool {
    match skin_from(model, nodes, mapping, h, n) {
        Some(i) => {
            &&& node.skin is Some
            &&& skin_made(
                node.skin->0,
                model.skins@[model.nodes@[i].skin->0 as int],
                mapping,
            )
            &&& node == (Node { skin: node.skin, ..before })
        },
        None => node == before,
    }
}

proof fn lemma_take_more(list: Seq<Handle>, i: int)
    requires
        0 <= i < list.len(),
    ensures
        forall|x: Handle| #[trigger]
            list.take(i + 1).contains(x) <==> list.take(i).contains(x) || x == list[i],
{
    let now = list.take(i);
    let next = list.take(i + 1);
    assert forall|x: Handle| #[trigger] next.contains(x) <==> now.contains(x) || x == list[i] by {
        if next.contains(x) {
            let k = choose|k: int| 0 <= k < next.len() && next[k] == x;
            if k < i {
                assert(now[k] == x);
            }
        }
        if now.contains(x) {
            let k = choose|k: int| 0 <= k < now.len() && now[k] == x;
            assert(next[k] == x);
        }
        assert(next[i] == list[i]);
    }
}

fn mapped(mapping: &Vec<Handle>, index: usize) -> (result: Handle)
    ensures
        result == if index < mapping@.len() {
            mapping@[index as int]
        } else {
            Handle::none()
        },
{
    if index < mapping.len() {
        mapping[index]
    } else {
        Handle::none()
    }
}

fn make_skin(source: &ModelSkin, mapping: &Vec<Handle>) -> (result: Skin)
    ensures
        skin_made(result, *source, mapping@),
{
    let mut joints: Vec<Handle> = Vec::new();
    let mut i: usize = 0;
    while i < source.joints.len()
        invariant
            i <= source.joints@.len(),
            joints@.len() == i,
            forall|j: int|
                0 <= j < i ==> #[trigger] joints@[j] == {
                    let joint = source.joints@[j];
                    if joint < mapping@.len() {
                        mapping@[joint as int]
                    } else {
                        Handle::none()
                    }
                },
        decreases source.joints@.len() - i,
    {
        joints.push(mapped(mapping, source.joints[i]));
        i += 1;
    }
    let mut inverse_bind: Vec<Mat4> = Vec::new();
    inverse_bind.extend_from_slice(source.inverse_bind.as_slice());
    assert(inverse_bind@ =~= source.inverse_bind@);
    Skin::new(joints, inverse_bind)
}

impl Scene {
    /// Makes the nodes of a plan.
    fn grow(&mut self, model: &Model, plan: &Vec<Birth>, outer: Handle) -> (result: Vec<Handle>)
        requires
            old(self).wf(),
            forall|k: int|
                0 <= k < plan@.len() ==> model.sound(#[trigger] plan@[k]) && (
                plan@[k].parent matches Some(j) ==> j < k),
            old(self).nodes.capacity() + plan@.len() <= u32::MAX,
        ensures
            final(self).wf(),
            result@.len() == plan@.len(),
            exists|scenes: Seq<Scene>|
                {
                    &&& #[trigger] grown_by(scenes, result@, model, plan@, outer)
                    &&& scenes[0] == *old(self)
                    &&& scenes.last() == *final(self)
                },
            forall|k: int|
                0 <= k < result@.len() ==> final(self).nodes@.contains_key(#[trigger] result@[k])
                    && !old(self).nodes.issued(result@[k]),
            final(self).nodes.capacity() <= old(self).nodes.capacity() + plan@.len(),
    {
        let mut handles: Vec<Handle> = Vec::new();
        let ghost mut scenes: Seq<Scene> = seq![*self];
        let mut i: usize = 0;
        while i < plan.len()
            invariant
                self.wf(),
                forall|k: int|
                    0 <= k < plan@.len() ==> model.sound(#[trigger] plan@[k]) && (
                    plan@[k].parent matches Some(j) ==> j < k),
                i <= plan@.len(),
                handles@.len() == i,
                scenes.len() == i + 1,
                scenes[0] == *old(self),
                scenes[i as int] == *self,
                forall|k: int|
                    0 <= k < i ==> birth_step(
                        &scenes[k],
                        &scenes[k + 1],
                        model,
                        #[trigger] plan@[k],
                        handles@[k],
                        birth_parent(plan@[k], handles@, outer),
                    ),
                forall|k: int|
                    0 <= k < i ==> self.nodes@.contains_key(#[trigger] handles@[k]) && !old(
                        self,
                    ).nodes.issued(handles@[k]),
                forall|h: Handle| #[trigger] old(self).nodes.issued(h) ==> self.nodes.issued(h),
                self.nodes.capacity() <= old(self).nodes.capacity() + i,
                old(self).nodes.capacity() + plan@.len() <= u32::MAX,
            decreases plan@.len() - i,
        {
            let birth = plan[i];
            assert(model.sound(plan@[i as int]));
            let parent = match birth.parent {
                Some(j) => handles[j],
                None => outer,
            };
            let node = model.bear(birth);
            let ghost born = node;
            let ghost before = *self;
            let h = self.add_node_with_parent(node, parent);
            proof {
                before.nodes.lemma_live_is_issued();
            }
            let ghost earlier = handles@;
            handles.push(h);
            proof {
                scenes = scenes.push(*self);
                assert(self.gained(&before, h, born, before.or_root(parent)));
                assert(birth_step(&before, self, model, birth, h, parent));
                assert forall|k: int| 0 <= k < i + 1 implies birth_step(
                    &scenes[k],
                    &scenes[k + 1],
                    model,
                    #[trigger] plan@[k],
                    handles@[k],
                    birth_parent(plan@[k], handles@, outer),
                ) by {
                    if k < i {
                        assert(birth_parent(plan@[k], handles@, outer) == birth_parent(
                            plan@[k],
                            earlier,
                            outer,
                        ));
                    }
                }
            }
            i += 1;
        }
        assert(grown_by(scenes, handles@, model, plan@, outer));
        handles
    }

    fn put_skin(&mut self, h: Handle, source: &ModelSkin, mapping: &Vec<Handle>)
        requires
            old(self).wf(),
        ensures
            final(self).wf(),
            final(self).tree() == old(self).tree(),
            if old(self).nodes@.contains_key(h) && old(self).nodes@[h].mesh is Some {
                let now = final(self).nodes@[h];
                &&& final(self).nodes@ == old(self).nodes@.insert(h, now)
                &&& now.skin is Some
                &&& skin_made(now.skin->0, *source, mapping@)
                &&& now == (Node { skin: now.skin, ..old(self).nodes@[h] })
            } else {
                final(self).nodes@ == old(self).nodes@
            },
            final(self).nodes.capacity() == old(self).nodes.capacity(),
            final(self).index == old(self).index,
            final(self).physics == old(self).physics,
            final(self).rest_same(old(self)),
    {
        proof {
            graph::lemma_place_kept(self.nodes@, h);
        }
        if let Some(node) = self.nodes.try_borrow_mut(h) {
            if node.mesh.is_some() {
                node.skin = Some(make_skin(source, mapping));
            }
        }
        proof {
            if !(old(self).nodes@.contains_key(h) && old(self).nodes@[h].mesh is Some) {
                assert(self.nodes@ =~= old(self).nodes@);
            }
        }
    }

    /// Puts the skins of a model onto the nodes that were made from it. A node that was split into
    /// pieces has its skin put onto each of them.
    fn attach_skins(&mut self, model: &Model, mapping: &Vec<Handle>)
        requires
            old(self).wf(),
            mapping@.len() == model.nodes@.len(),
        ensures
            final(self).wf(),
            final(self).tree() == old(self).tree(),
            final(self).nodes@.dom() == old(self).nodes@.dom(),
            forall|h: Handle| #[trigger]
                old(self).nodes@.contains_key(h) ==> clad(
                    final(self).nodes@[h],
                    old(self).nodes@[h],
                    model,
                    old(self).nodes@,
                    mapping@,
                    h,
                    model.nodes@.len(),
                ),
            final(self).nodes.capacity() == old(self).nodes.capacity(),
            final(self).index == old(self).index,
            final(self).physics == old(self).physics,
            final(self).rest_same(old(self)),
    {
        let ghost start = self.nodes@;
        let mut index: usize = 0;
        while index < model.nodes.len()
            invariant
                self.wf(),
                start == old(self).nodes@,
                self.tree() == old(self).tree(),
                mapping@.len() == model.nodes@.len(),
                index <= model.nodes@.len(),
                self.nodes@.dom() == start.dom(),
                forall|h: Handle| #[trigger]
                    start.contains_key(h) ==> clad(
                        self.nodes@[h],
                        start[h],
                        model,
                        start,
                        mapping@,
                        h,
                        index as nat,
                    ),
                self.nodes.capacity() == old(self).nodes.capacity(),
                self.index == old(self).index,
                self.physics == old(self).physics,
                self.rest_same(old(self)),
            decreases model.nodes@.len() - index,
        {
            let ghost now = self.nodes@;
            if let Some(number) = model.nodes[index].skin {
                if number < model.skins.len() {
                    let own = mapping[index];
                    let wearers = self.skin_wearers(own);
                    proof {
                        assert forall|h: Handle| #[trigger] start.contains_key(h) implies (
                        wearers@.contains(h) && start[h].mesh is Some) == skin_goes(
                            start,
                            mapping@,
                            index as int,
                            h,
                        ) by {
                            assert(now.contains_key(h));
                            if start.contains_key(own) {
                                assert(now.contains_key(own));
                                if start[own].mesh is Some {
                                    assert(wearers@[0] == own);
                                }
                            }
                        }
                    }
                    let mut i: usize = 0;
                    while i < wearers.len()
                        invariant
                            self.wf(),
                            start == old(self).nodes@,
                            self.tree() == old(self).tree(),
                            mapping@.len() == model.nodes@.len(),
                            index < model.nodes@.len(),
                            number < model.skins@.len(),
                            model.nodes@[index as int].skin == Some(number),
                            i <= wearers@.len(),
                            self.nodes@.dom() == start.dom(),
                            now.dom() == start.dom(),
                            forall|h: Handle| #[trigger]
                                start.contains_key(h) ==> now[h] == (Node {
                                    skin: now[h].skin,
                                    ..start[h]
                                }),
                            forall|h: Handle| #[trigger]
                                start.contains_key(h) ==> if wearers@.take(i as int).contains(h)
                                    && start[h].mesh is Some {
                                    &&& self.nodes@[h].skin is Some
                                    &&& skin_made(
                                        self.nodes@[h].skin->0,
                                        model.skins@[number as int],
                                        mapping@,
                                    )
                                    &&& self.nodes@[h] == (Node {
                                        skin: self.nodes@[h].skin,
                                        ..start[h]
                                    })
                                } else {
                                    self.nodes@[h] == now[h]
                                },
                            self.nodes.capacity() == old(self).nodes.capacity(),
                            self.index == old(self).index,
                            self.physics == old(self).physics,
                            self.rest_same(old(self)),
                        decreases wearers@.len() - i,
                    {
                        let h = wearers[i];
                        let ghost before = self.nodes@;
                        proof {
                            lemma_take_more(wearers@, i as int);
                            if start.contains_key(h) {
                                assert(now.contains_key(h));
                                assert(before[h].mesh == start[h].mesh);
                            }
                        }
                        self.put_skin(h, &model.skins[number], mapping);
                        assert(self.nodes@.dom() =~= start.dom());
                        i += 1;
                    }
                    assert(wearers@.take(i as int) =~= wearers@);
                }
            }
            index += 1;
        }
    }

    fn skin_wearers(&self, own: Handle) -> (result: Vec<Handle>)
        ensures
            if !self.nodes@.contains_key(own) {
                result@.len() == 0
            } else if self.nodes@[own].mesh is Some {
                result@ == seq![own]
            } else {
                result@ == self.nodes@[own].children@
            },
    {
        let mut result: Vec<Handle> = Vec::new();
        if let Some(node) = self.nodes.try_borrow(own) {
            if node.mesh.is_some() {
                result.push(own);
            } else {
                result.extend_from_slice(node.children.as_slice());
                assert(result@ =~= node.children@);
            }
        }
        result
    }
}

impl Model {
    /// How many nodes of a scene the model unfolds into.
    pub fn unfolded_len(&self) -> (result: usize)
        ensures
            result == self.plan().len(),
    {
        let plan = self.unfold();
        plan.len()
    }

    fn mapping(&self, plan: &Vec<Birth>, handles: &Vec<Handle>) -> (result: Vec<Handle>)
        requires
            handles@.len() == plan@.len(),
        ensures
            result@ == mapping_of(self, plan@, handles@),
    {
        let mut result: Vec<Handle> = Vec::new();
        while result.len() < self.nodes.len()
            invariant
                result@.len() <= self.nodes@.len(),
                forall|i: int| 0 <= i < result@.len() ==> result@[i] == Handle::none(),
            decreases self.nodes@.len() - result@.len(),
        {
            result.push(Handle::none());
        }
        let mut k: usize = 0;
        assert(plan@.take(0) =~= Seq::<Birth>::empty());
        while k < plan.len()
            invariant
                handles@.len() == plan@.len(),
                k <= plan@.len(),
                result@.len() == self.nodes@.len(),
                forall|i: int|
                    0 <= i < result@.len() ==> #[trigger] result@[i] == handle_for(
                        plan@.take(k as int),
                        handles@,
                        i,
                    ),
            decreases plan@.len() - k,
        {
            proof {
                assert(plan@.take(k + 1).drop_last() =~= plan@.take(k as int));
                assert(plan@.take(k + 1).last() == plan@[k as int]);
            }
            if let Origin::Node { index } = plan[k].origin {
                if index < result.len() {
                    result.set(index, handles[k]);
                }
            }
            k += 1;
        }
        assert(plan@.take(k as int) =~= plan@);
        assert(result@ =~= mapping_of(self, plan@, handles@));
        result
    }
}

fn copied_names(list: &Vec<String>) -> (result: Vec<String>)
    ensures
        result@ == list@,
{
    let mut result: Vec<String> = Vec::new();
    let mut i: usize = 0;
    while i < list.len()
        invariant
            i <= list@.len(),
            result@ == list@.take(i as int),
        decreases list@.len() - i,
    {
        result.push(list[i].clone());
        i += 1;
        assert(result@ =~= list@.take(i as int));
    }
    assert(result@ =~= list@);
    result
}

/// What has become of the model's root once its animations were attached: it plays them onto the
/// nodes that were made, and nothing yet.
pub open spec fn animated(node: Node, before: Node, model: &Model, mapping: Seq<Handle>) -> bool {
    if model.animations@.len() == 0 {
        node == before
    } else {
        &&& node.animator matches Some(player) && {
            &&& player.clips@ == model.animations@
            &&& player.targets@ == mapping
            &&& player.playing@.len() == 0
            &&& player.pose@.len() == 0
            &&& player.morphs@.len() == 0
        }
        &&& node == (Node { animator: node.animator, ..before })
    }
}

/// A scene after a model was brought in: `grown` is the scene with the model's nodes in it.
pub open spec fn furnished(
    after: &Scene,
    grown: &Scene,
    model: &Model,
    mapping: Seq<Handle>,
    root: Handle,
) -> bool {
    &&& after.nodes@.dom() == grown.nodes@.dom()
    &&& after.tree() == grown.tree()
    &&& forall|h: Handle| #[trigger]
        grown.nodes@.contains_key(h) ==> exists|worn: Node|
            {
                &&& #[trigger] clad(
                    worn,
                    grown.nodes@[h],
                    model,
                    grown.nodes@,
                    mapping,
                    h,
                    model.nodes@.len(),
                )
                &&& if h == root {
                    animated(after.nodes@[h], worn, model, mapping)
                } else {
                    after.nodes@[h] == worn
                }
            }
    &&& after.index == grown.index
    &&& after.physics == grown.physics
    &&& after.rest_same(grown)
}

impl Scene {
    fn attach_animator(&mut self, model: &Model, root: Handle, mapping: Vec<Handle>)
        requires
            old(self).wf(),
        ensures
            final(self).wf(),
            final(self).tree() == old(self).tree(),
            final(self).nodes@.dom() == old(self).nodes@.dom(),
            forall|h: Handle| #[trigger]
                old(self).nodes@.contains_key(h) ==> if h == root {
                    animated(final(self).nodes@[h], old(self).nodes@[h], model, mapping@)
                } else {
                    final(self).nodes@[h] == old(self).nodes@[h]
                },
            final(self).nodes.capacity() == old(self).nodes.capacity(),
            final(self).index == old(self).index,
            final(self).physics == old(self).physics,
            final(self).rest_same(old(self)),
    {
        if model.animations.len() == 0 {
            return;
        }
        proof {
            graph::lemma_place_kept(self.nodes@, root);
        }
        if let Some(node) = self.nodes.try_borrow_mut(root) {
            node.animator =
            Some(AnimationPlayer::new(copied_names(&model.animations), mapping));
        }
        assert(self.nodes@.dom() =~= old(self).nodes@.dom());
    }

    /// Brings a model into the scene under `parent`, or under the root if that is not there, and
    /// gives the handle of its root. A model that has not exactly one root gets a container. A
    /// model whose only root is not there gives [`Handle::none`].
    pub fn instantiate_model(&mut self, model: &Model, parent: Handle) -> (result: Handle)
        requires
            old(self).wf(),
            old(self).nodes.capacity() + model.plan().len() <= u32::MAX,
        ensures
            final(self).wf(),
            exists|scenes: Seq<Scene>, handles: Seq<Handle>|
                {
                    &&& #[trigger] grown_by(scenes, handles, model, model.plan(), parent)
                    &&& scenes[0] == *old(self)
                    &&& furnished(
                        final(self),
                        &scenes.last(),
                        model,
                        mapping_of(model, model.plan(), handles),
                        result,
                    )
                    &&& result == if handles.len() == 0 {
                        Handle::none()
                    } else {
                        handles[0]
                    }
                },
            model.plan().len() > 0 ==> final(self).nodes@.contains_key(result) && !old(
                self,
            ).nodes.issued(result),
            final(self).nodes.capacity() <= old(self).nodes.capacity() + model.plan().len(),
    {
        let plan = model.unfold();
        let handles = self.grow(model, &plan, parent);
        let ghost scenes = choose|scenes: Seq<Scene>|
            {
                &&& #[trigger] grown_by(scenes, handles@, model, plan@, parent)
                &&& scenes[0] == *old(self)
                &&& scenes.last() == *self
            };
        let ghost grown = *self;
        let mapping = model.mapping(&plan, &handles);
        let root = if handles.len() == 0 {
            Handle::none()
        } else {
            assert(grown.nodes@.contains_key(handles@[0]));
            handles[0]
        };
        self.attach_skins(model, &mapping);
        let ghost worn = self.nodes@;
        let ghost places = mapping@;
        self.attach_animator(model, root, mapping);
        proof {
            assert forall|h: Handle| #[trigger] grown.nodes@.contains_key(h) implies exists|
                dress: Node,
            |
                {
                    &&& #[trigger] clad(
                        dress,
                        grown.nodes@[h],
                        model,
                        grown.nodes@,
                        places,
                        h,
                        model.nodes@.len(),
                    )
                    &&& if h == root {
                        animated(self.nodes@[h], dress, model, places)
                    } else {
                        self.nodes@[h] == dress
                    }
                } by {
                assert(clad(
                    worn[h],
                    grown.nodes@[h],
                    model,
                    grown.nodes@,
                    places,
                    h,
                    model.nodes@.len(),
                ));
                assert(worn.contains_key(h));
            }
            assert(furnished(self, &grown, model, places, root));
            assert(grown_by(scenes, handles@, model, model.plan(), parent));
        }
        root
    }
}

proof fn lemma_births_fuel(
    model: &Model,
    rank: Seq<nat>,
    index: usize,
    parent: Option<usize>,
    start: nat,
    f: nat,
    g: nat,
)
    requires
        model.ranked(rank),
        index < model.nodes@.len() ==> rank[index as int] < f && rank[index as int] < g,
        f > 0,
        g > 0,
    ensures
        model.births(index, parent, start, f) == model.births(index, parent, start, g),
    decreases (if index < model.nodes@.len() {
        rank[index as int] + 1
    } else {
        0
    }), 0nat,
{
    if index < model.nodes@.len() {
        let own = model.own_births(index, parent, start);
        let list = model.nodes@[index as int].children@;
        assert forall|k: int|
            0 <= k < list.len() && #[trigger] list[k] < model.nodes@.len() implies rank[list[k] as int]
            < rank[index as int] by {
            assert(model.nodes@[index as int].children@[k] == list[k]);
        }
        if rank[index as int] == 0 {
            lemma_leafless(model, list, Some(start as usize), start + own.len(), (f - 1) as nat);
            lemma_leafless(model, list, Some(start as usize), start + own.len(), (g - 1) as nat);
        } else {
            lemma_births_of_fuel(
                model,
                rank,
                list,
                Some(start as usize),
                start + own.len(),
                (f - 1) as nat,
                (g - 1) as nat,
                rank[index as int],
            );
        }
    }
}

/// Children that there are not give no births.
proof fn lemma_leafless(
    model: &Model,
    list: Seq<usize>,
    parent: Option<usize>,
    start: nat,
    fuel: nat,
)
    requires
        forall|k: int| 0 <= k < list.len() ==> #[trigger] list[k] >= model.nodes@.len(),
    ensures
        model.births_of(list, parent, start, fuel) == Seq::<Birth>::empty(),
    decreases list.len(),
{
    if list.len() > 0 {
        let front = list.drop_last();
        assert(list[list.len() - 1] >= model.nodes@.len());
        assert forall|k: int| 0 <= k < front.len() implies #[trigger] front[k]
            >= model.nodes@.len() by {
            assert(front[k] == list[k]);
        }
        lemma_leafless(model, front, parent, start, fuel);
        assert(model.births(list.last(), parent, start, fuel) == Seq::<Birth>::empty());
        assert(start + Seq::<Birth>::empty().len() == start);
        assert(model.births_of(list, parent, start, fuel) =~= Seq::<Birth>::empty());
    }
}

proof fn lemma_births_of_fuel(
    model: &Model,
    rank: Seq<nat>,
    list: Seq<usize>,
    parent: Option<usize>,
    start: nat,
    f: nat,
    g: nat,
    top: nat,
)
    requires
        model.ranked(rank),
        forall|k: int|
            0 <= k < list.len() ==> (#[trigger] list[k] < model.nodes@.len()
                ==> rank[list[k] as int] < top),
        top <= f,
        top <= g,
        top > 0,
    ensures
        model.births_of(list, parent, start, f) == model.births_of(list, parent, start, g),
    decreases top, list.len() + 1,
{
    if list.len() > 0 {
        let front = list.drop_last();
        assert forall|k: int|
            0 <= k < front.len() && #[trigger] front[k] < model.nodes@.len() implies rank[front[k] as int]
            < top by {
            assert(front[k] == list[k]);
        }
        lemma_births_of_fuel(model, rank, front, parent, start, f, g, top);
        let n = model.births_of(front, parent, start, f).len();
        assert(list[list.len() - 1] == list.last());
        lemma_births_fuel(model, rank, list.last(), parent, start + n, f, g);
    }
}

/// Nothing is cut off: where no node hangs under itself, the births of a node are the node itself
/// and its pieces, and then the births of all its children.
pub proof fn lemma_plan_is_complete(
    model: &Model,
    rank: Seq<nat>,
    index: usize,
    parent: Option<usize>,
    start: nat,
)
    requires
        model.ranked(rank),
        index < model.nodes@.len(),
    ensures
        ({
            let depth = model.nodes@.len();
            let own = model.own_births(index, parent, start);
            model.births(index, parent, start, depth) == own + model.births_of(
                model.nodes@[index as int].children@,
                Some(start as usize),
                start + own.len(),
                depth,
            )
        }),
{
    let depth = model.nodes@.len();
    let own = model.own_births(index, parent, start);
    let list = model.nodes@[index as int].children@;
    assert(rank[index as int] < depth);
    lemma_births_fuel(model, rank, index, parent, start, depth, depth + 1);
    assert(model.births(index, parent, start, depth + 1) == own + model.births_of(
        list,
        Some(start as usize),
        start + own.len(),
        depth,
    ));
}

} // verus!
