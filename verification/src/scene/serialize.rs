//! Saving scenes and reading them back.
//!
//! A [`SceneDocument`] is what a scene file holds. Meshes and materials stand in tables of their
//! own, each of them once, and nodes refer to them by number. A mesh that comes from a model file
//! is saved as a reference to that file. Particle systems, animation players and ragdolls are not
//! saved.

use crate::numbers::{Mat4, Real, Transform};
use crate::pool::{Handle, Pool};
use crate::scene::components::{Camera, Light};
use crate::scene::graph;
use crate::scene::graph::{Environment, Scene, WorldModel};
use crate::scene::lod::Lod;
use crate::scene::mesh::{Material, Mesh, MeshSource};
use crate::scene::node::Node;
use crate::scene::physics::{
    BodyAction, Collider, ColliderDesc, Joint, JointDesc, RigidBody, RigidBodyDesc,
};
use crate::scene::queries;
use crate::scene::script::ScriptSlot;
use crate::scene::shape;
use crate::scene::skin;
use crate::scene::skin::Skin;
use crate::scene::update;
use crate::text;
use crate::tree;
use crate::tree::{Links, Tree};
use vstd::prelude::*;

verus! {

/// The version of the format. Files of other versions are refused rather than misread.
pub const SCENE_FORMAT_VERSION: u32 = 1;

/// The saved part of a skin.
#[derive(Debug)]
pub struct SkinRecord {
    pub joints: Vec<Handle>,
    pub inverse_bind: Vec<Mat4>,
}

/// The saved part of a joint.
#[derive(Debug, Clone, Copy)]
pub struct SavedJoint {
    pub desc: JointDesc,
    pub body1: Handle,
    pub body2: Handle,
}

/// The saved part of a node's levels of detail.
#[derive(Debug)]
pub struct SavedLod {
    pub distances: Vec<Real>,
    pub hysteresis: Vec<Real>,
    pub auto_update: bool,
}

/// The saved part of a script slot. Which instance runs is not saved: the number would mean another
/// one next time.
#[derive(Debug)]
pub struct SavedScript {
    pub path: String,
    pub enabled: bool,
    pub state: String,
}

/// The saved part of a node.
#[derive(Debug)]
pub struct NodeRecord {
    pub name: String,
    pub transform: Transform,
    pub visible: bool,
    pub morph_weights: Vec<Real>,
    pub camera: Option<Camera>,
    pub light: Option<Light>,
    pub skin: Option<SkinRecord>,
    pub rigid_body: Option<RigidBodyDesc>,
    pub collider: Option<ColliderDesc>,
    pub joint: Option<SavedJoint>,
    pub lod: Option<SavedLod>,
    pub script: Option<SavedScript>,
    pub parent: Handle,
    pub children: Vec<Handle>,
}

/// One slot of the pool of nodes.
#[derive(Debug)]
pub struct SavedSlot {
    pub generation: u32,
    pub node: Option<NodeRecord>,
}

/// One line of the table of meshes: where the mesh comes from, or else the mesh itself.
#[derive(Debug)]
pub struct MeshEntry {
    pub id: u128,
    pub source: Option<MeshSource>,
    pub inline: Option<Mesh>,
}

/// A node refers to a line of a table.
#[derive(Debug, Clone, Copy, PartialEq, Eq, Structural)]
pub struct TableRef {
    pub node: Handle,
    pub slot: usize,
}

/// What a scene file holds.
#[derive(Debug)]
pub struct SceneDocument {
    pub version: u32,
    pub root: Handle,
    pub meshes: Vec<MeshEntry>,
    pub materials: Vec<Material>,
    pub slots: Vec<SavedSlot>,
    pub node_meshes: Vec<TableRef>,
    pub node_materials: Vec<TableRef>,
    pub environment: Environment,
}

/// How many components were not saved.
#[derive(Debug, Clone, Copy, PartialEq, Eq, Structural)]
pub struct Skipped {
    pub particles: usize,
    pub animators: usize,
    pub ragdolls: usize,
}

/// Why a scene could not be read.
#[derive(Debug, Clone, Copy, PartialEq, Eq, Structural)]
pub enum SceneLoadError {
    /// The file has another version of the format.
    Version { found: u32 },
    /// The nodes do not form a tree.
    Broken,
}

impl SceneLoadError {
    /// The error in words.
    pub fn message(&self) -> (result: String)
        ensures
            result@ == match *self {
                SceneLoadError::Version { found } => "场景文件版本是 "@ + text::decimal(
                    found as nat,
                ) + "，本引擎只认 1"@,
                SceneLoadError::Broken => "场景文件里的节点不成树"@,
            },
    {
        match self {
            SceneLoadError::Version { found } => {
                let front = text::joined(
                    "场景文件版本是 ",
                    text::number(*found as u64).as_str(),
                );
                text::joined(front.as_str(), "，本引擎只认 1")
            },
            SceneLoadError::Broken => "场景文件里的节点不成树".to_owned(),
        }
    }
}

fn copied_handles(list: &Vec<Handle>) -> (result: Vec<Handle>)
    ensures
        result@ == list@,
{
    let mut result: Vec<Handle> = Vec::new();
    result.extend_from_slice(list.as_slice());
    assert(result@ =~= list@);
    result
}

fn copied_matrices(list: &Vec<Mat4>) -> (result: Vec<Mat4>)
    ensures
        result@ == list@,
{
    let mut result: Vec<Mat4> = Vec::new();
    result.extend_from_slice(list.as_slice());
    assert(result@ =~= list@);
    result
}

fn copied_reals(list: &Vec<Real>) -> (result: Vec<Real>)
    ensures
        result@ == list@,
{
    let mut result: Vec<Real> = Vec::new();
    result.extend_from_slice(list.as_slice());
    assert(result@ =~= list@);
    result
}

impl NodeRecord {
    /// Whether this is the saved part of a node.
    pub open spec fn describes(self, node: Node) -> bool {
        &&& self.name@ == node.name@
        &&& self.transform == node.transform
        &&& self.visible == node.visible
        &&& self.morph_weights@ == node.morph_weights@
        &&& self.camera == node.camera
        &&& self.light == node.light
        &&& match (self.skin, node.skin) {
            (Some(record), Some(skin)) => record.joints@ == skin.joints@ && record.inverse_bind@
                == skin.inverse_bind@,
            (None, None) => true,
            _ => false,
        }
        &&& self.rigid_body == match node.rigid_body {
            Some(body) => Some(body.desc),
            None => None,
        }
        &&& self.collider == match node.collider {
            Some(collider) => Some(collider.desc),
            None => None,
        }
        &&& self.joint == match node.joint {
            Some(joint) => Some(
                SavedJoint { desc: joint.desc, body1: joint.body1, body2: joint.body2 },
            ),
            None => None,
        }
        &&& match (self.lod, node.lod) {
            (Some(record), Some(lod)) => {
                &&& record.distances@ == Lod::distances_of(lod.levels@)
                &&& record.hysteresis@ == Lod::hysteresis_of(lod.levels@)
                &&& record.auto_update == lod.auto_update
            },
            (None, None) => true,
            _ => false,
        }
        &&& match (self.script, node.script) {
            (Some(record), Some(slot)) => {
                &&& record.path@ == slot.path@
                &&& record.enabled == slot.enabled
                &&& record.state@ == slot.state@
            },
            (None, None) => true,
            _ => false,
        }
        &&& self.parent == node.parent
        &&& self.children@ == node.children@
    }

    /// The saved part of a node.
    pub fn of(node: &Node) -> (result: Self)
        ensures
            result.describes(*node),
    {
        let skin = match &node.skin {
            Some(skin) => Some(
                SkinRecord {
                    joints: copied_handles(&skin.joints),
                    inverse_bind: copied_matrices(&skin.inverse_bind),
                },
            ),
            None => None,
        };
        let rigid_body = match &node.rigid_body {
            Some(body) => Some(body.desc),
            None => None,
        };
        let collider = match &node.collider {
            Some(collider) => Some(collider.desc),
            None => None,
        };
        let joint = match &node.joint {
            Some(joint) => Some(
                SavedJoint { desc: joint.desc, body1: joint.body1, body2: joint.body2 },
            ),
            None => None,
        };
        let lod = match &node.lod {
            Some(lod) => Some(SavedLod::of(lod)),
            None => None,
        };
        let script = match &node.script {
            Some(slot) => Some(
                SavedScript {
                    path: slot.path.clone(),
                    enabled: slot.enabled,
                    state: slot.state.clone(),
                },
            ),
            None => None,
        };
        NodeRecord {
            name: node.name.clone(),
            transform: node.transform,
            visible: node.visible,
            morph_weights: copied_reals(&node.morph_weights),
            camera: node.camera,
            light: node.light,
            skin,
            rigid_body,
            collider,
            joint,
            lod,
            script,
            parent: node.parent,
            children: copied_handles(&node.children),
        }
    }

    /// Whether a node came out of this record. Its mesh, its material, its morph weights and
    /// whether it is shown are not looked at.
    pub open spec fn revives(self, node: Node) -> bool {
        &&& node.name@ == self.name@
        &&& node.transform == self.transform
        &&& node.visible == self.visible
        &&& node.camera == self.camera
        &&& node.light == self.light
        &&& match (self.skin, node.skin) {
            (Some(record), Some(skin)) => {
                let count = skin::shorter(record.joints@.len(), record.inverse_bind@.len()) as int;
                &&& skin.wf()
                &&& skin.joints@ == record.joints@.take(count)
                &&& skin.inverse_bind@ == record.inverse_bind@.take(count)
                &&& forall|i: int|
                    0 <= i < skin.matrices@.len() ==> skin.matrices@[i] == Mat4::identity()
            },
            (None, None) => true,
            _ => false,
        }
        &&& match (self.rigid_body, node.rigid_body) {
            (Some(desc), Some(body)) => {
                &&& body.desc == desc
                &&& body.native is None
                &&& body.actions@ == Seq::<BodyAction>::empty()
                &&& body.desc_dirty
                &&& !body.sleeping
            },
            (None, None) => true,
            _ => false,
        }
        &&& node.collider == match self.collider {
            Some(desc) => Some(Collider { desc_dirty: true, ..Collider::new(desc) }),
            None => None,
        }
        &&& node.joint == match self.joint {
            Some(saved) => Some(
                Joint { dirty: true, ..Joint::new(saved.body1, saved.body2, saved.desc) },
            ),
            None => None,
        }
        &&& match (self.lod, node.lod) {
            (Some(record), Some(lod)) => {
                &&& lod.wf()
                &&& lod.levels@ == Lod::saved_levels(record.distances@, record.hysteresis@)
                &&& lod.current == 0
                &&& lod.auto_update == record.auto_update
            },
            (None, None) => true,
            _ => false,
        }
        &&& match (self.script, node.script) {
            (Some(record), Some(slot)) => {
                &&& slot.path@ == record.path@
                &&& slot.enabled == record.enabled
                &&& slot.state@ == record.state@
                &&& !slot.live()
                &&& !slot.failed
            },
            (None, None) => true,
            _ => false,
        }
        &&& node.parent == self.parent
        &&& node.children@ == self.children@
        &&& node.receives_decals
        &&& node.light_mask == u32::MAX
        &&& node.particles is None
        &&& node.animator is None
        &&& node.ragdoll is None
        &&& node.terrain is None
        &&& node.sound is None
    }

    /// A node out of this record, as yet without its mesh and material.
    pub fn revive(&self) -> (result: Node)
        ensures
            self.revives(result),
            result.mesh is None,
            result.material is None,
            result.morph_weights@ == self.morph_weights@,
    {
        let mut node = Node::new(self.name.as_str());
        node.transform = self.transform;
        node.visible = self.visible;
        node.morph_weights = copied_reals(&self.morph_weights);
        node.camera = self.camera;
        node.light = self.light;
        if let Some(record) = &self.skin {
            node.skin =
            Some(
                Skin::new(copied_handles(&record.joints), copied_matrices(&record.inverse_bind)),
            );
        }
        if let Some(desc) = &self.rigid_body {
            let mut body = RigidBody::new(*desc);
            body.desc_dirty = true;
            node.rigid_body = Some(body);
        }
        if let Some(desc) = &self.collider {
            let mut collider = Collider::new(*desc);
            collider.desc_dirty = true;
            node.collider = Some(collider);
        }
        if let Some(saved) = &self.joint {
            let mut joint = Joint::new(saved.body1, saved.body2, saved.desc);
            joint.dirty = true;
            node.joint = Some(joint);
        }
        if let Some(record) = &self.lod {
            node.lod =
            Some(Lod::from_saved(&record.distances, &record.hysteresis, record.auto_update));
        }
        if let Some(record) = &self.script {
            let mut slot = ScriptSlot::new(record.path.as_str());
            slot.enabled = record.enabled;
            slot.state = record.state.clone();
            node.script = Some(slot);
        }
        node.parent = self.parent;
        node.children = copied_handles(&self.children);
        node
    }
}

impl SavedLod {
    fn of(lod: &Lod) -> (result: Self)
        ensures
            result.distances@ == Lod::distances_of(lod.levels@),
            result.hysteresis@ == Lod::hysteresis_of(lod.levels@),
            result.auto_update == lod.auto_update,
    {
        let mut distances: Vec<Real> = Vec::new();
        let mut hysteresis: Vec<Real> = Vec::new();
        let mut i: usize = 0;
        while i < lod.levels.len()
            invariant
                i <= lod.levels@.len(),
                distances@ == Lod::distances_of(lod.levels@).take(i as int),
                hysteresis@ == Lod::hysteresis_of(lod.levels@).take(i as int),
            decreases lod.levels@.len() - i,
        {
            distances.push(lod.levels[i].distance);
            hysteresis.push(lod.levels[i].hysteresis);
            i += 1;
            assert(distances@ =~= Lod::distances_of(lod.levels@).take(i as int));
            assert(hysteresis@ =~= Lod::hysteresis_of(lod.levels@).take(i as int));
        }
        assert(distances@ =~= Lod::distances_of(lod.levels@));
        assert(hysteresis@ =~= Lod::hysteresis_of(lod.levels@));
        SavedLod { distances, hysteresis, auto_update: lod.auto_update }
    }
}

/// The line that a mesh gets in the table.
pub open spec fn entry_of(mesh: Mesh) -> MeshEntry {
    MeshEntry {
        id: mesh.data.id,
        source: mesh.data.source,
        inline: if mesh.data.source is Some {
            None
        } else {
            Some(mesh)
        },
    }
}

impl MeshEntry {
    /// The line for a mesh: a reference if it comes from a file, or else the mesh itself.
    pub fn from_mesh(mesh: &Mesh) -> (result: Self)
        ensures
            result == entry_of(*mesh),
    {
        match &mesh.data.source {
            Some(source) => MeshEntry {
                id: mesh.data.id,
                source: Some(source.clone()),
                inline: None,
            },
            None => MeshEntry { id: mesh.data.id, source: None, inline: Some(mesh.clone()) },
        }
    }

    /// The mesh that the line stands for. `found` is what the file that it names has given.
    pub open spec fn resolved(self, found: Option<Mesh>) -> Option<Mesh> {
        match self.inline {
            Some(mesh) => Some(mesh),
            None => if self.source is Some {
                found
            } else {
                None
            },
        }
    }

    pub fn resolve(&self, found: &Option<Mesh>) -> (result: Option<Mesh>)
        ensures
            result == self.resolved(*found),
    {
        match &self.inline {
            Some(mesh) => Some(mesh.clone()),
            None => {
                if self.source.is_some() {
                    match found {
                        Some(mesh) => Some(mesh.clone()),
                        None => None,
                    }
                } else {
                    None
                }
            },
        }
    }
}

/// Some mesh in the table has that id.
pub open spec fn has_mesh(table: Seq<Mesh>, id: u128) -> bool {
    exists|i: int| 0 <= i < table.len() && (#[trigger] table[i]).data.id == id
}

/// The meshes of the listed nodes, each id once, in the order in which they come up.
pub open spec fn mesh_table(nodes: Map<Handle, Node>, list: Seq<Handle>) -> Seq<Mesh>
    decreases list.len(),
{
    if list.len() == 0 {
        Seq::empty()
    } else {
        let front = mesh_table(nodes, list.drop_last());
        match nodes[list.last()].mesh {
            Some(mesh) if !has_mesh(front, mesh.data.id) => front.push(mesh),
            _ => front,
        }
    }
}

/// Some material in the table has that key.
pub open spec fn has_material(table: Seq<Material>, key: (u128, u64)) -> bool {
    exists|i: int| 0 <= i < table.len() && (#[trigger] table[i]).key() == key
}

/// The materials of the listed nodes, each key once, in the order in which they come up.
pub open spec fn material_table(nodes: Map<Handle, Node>, list: Seq<Handle>) -> Seq<Material>
    decreases list.len(),
{
    if list.len() == 0 {
        Seq::empty()
    } else {
        let front = material_table(nodes, list.drop_last());
        match nodes[list.last()].material {
            Some(material) if !has_material(front, material.key()) => front.push(material),
            _ => front,
        }
    }
}

/// A node with a mesh.
pub open spec fn with_mesh(nodes: Map<Handle, Node>) -> spec_fn(Handle) -> bool {
    |h: Handle| nodes[h].mesh is Some
}

/// A node with a material.
pub open spec fn with_material(nodes: Map<Handle, Node>) -> spec_fn(Handle) -> bool {
    |h: Handle| nodes[h].material is Some
}

/// Each of the listed nodes that has a mesh refers to the line with that mesh's id.
pub open spec fn mesh_refs(
    refs: Seq<TableRef>,
    nodes: Map<Handle, Node>,
    list: Seq<Handle>,
    table: Seq<Mesh>,
) -> bool {
    let wearers = queries::all_such(list, with_mesh(nodes));
    &&& refs.len() == wearers.len()
    &&& forall|k: int|
        0 <= k < refs.len() ==> {
            &&& (#[trigger] refs[k]).node == wearers[k]
            &&& refs[k].slot < table.len()
            &&& table[refs[k].slot as int].data.id == nodes[wearers[k]].mesh->0.data.id
        }
}

/// Each of the listed nodes that has a material refers to the line with that material's key.
pub open spec fn material_refs(
    refs: Seq<TableRef>,
    nodes: Map<Handle, Node>,
    list: Seq<Handle>,
    table: Seq<Material>,
) -> bool {
    let wearers = queries::all_such(list, with_material(nodes));
    &&& refs.len() == wearers.len()
    &&& forall|k: int|
        0 <= k < refs.len() ==> {
            &&& (#[trigger] refs[k]).node == wearers[k]
            &&& refs[k].slot < table.len()
            &&& table[refs[k].slot as int].key() == nodes[wearers[k]].material->0.key()
        }
}

/// The handle that belongs to a slot while its node is there.
pub open spec fn slot_handle(index: int, generation: u32) -> Handle {
    Handle { index: index as u32, generation }
}

impl SceneDocument {
    /// Whether this is the saved form of a scene.
    pub open spec fn saves(&self, scene: &Scene) -> bool {
        let nodes = scene.nodes@;
        let order = scene.nodes.order();
        let meshes = mesh_table(nodes, order);
        &&& self.version == SCENE_FORMAT_VERSION
        &&& self.root == scene.root
        &&& self.environment == scene.environment
        &&& self.saves_slots(scene)
        &&& self.meshes@.len() == meshes.len()
        &&& forall|i: int|
            0 <= i < meshes.len() ==> #[trigger] self.meshes@[i] == entry_of(meshes[i])
        &&& self.materials@ == material_table(nodes, order)
        &&& mesh_refs(self.node_meshes@, nodes, order, meshes)
        &&& material_refs(self.node_materials@, nodes, order, self.materials@)
    }

    /// Whether the slots are those of a scene's nodes.
    pub open spec fn saves_slots(&self, scene: &Scene) -> bool {
        let generations = scene.nodes.generation_list();
        &&& self.slots@.len() == generations.len()
        &&& forall|i: int|
            0 <= i < self.slots@.len() ==> (#[trigger] self.slots@[i]).saved(
                scene.nodes@,
                slot_handle(i, generations[i]),
            )
    }
}

impl SavedSlot {
    /// Whether this is the saved form of one slot.
    pub open spec fn saved(self, nodes: Map<Handle, Node>, h: Handle) -> bool {
        &&& self.generation == h.generation
        &&& self.node is Some <==> nodes.contains_key(h)
        &&& self.node matches Some(record) ==> record.describes(nodes[h])
    }
}

/// The node with all of its physics components marked as changed.
pub open spec fn marked(node: Node) -> Node {
    Node {
        rigid_body: match node.rigid_body {
            Some(body) => Some(RigidBody { desc_dirty: true, ..body }),
            None => None,
        },
        collider: match node.collider {
            Some(collider) => Some(Collider { desc_dirty: true, ..collider }),
            None => None,
        },
        joint: match node.joint {
            Some(joint) => Some(Joint { dirty: true, ..joint }),
            None => None,
        },
        ..node
    }
}

/// Finds the line of a mesh, or adds one.
fn mesh_slot(entries: &mut Vec<MeshEntry>, mesh: &Mesh, Ghost(table): Ghost<Seq<Mesh>>) -> (result:
    usize)
    requires
        old(entries)@.len() == table.len(),
        forall|i: int| 0 <= i < table.len() ==> #[trigger] old(entries)@[i] == entry_of(table[i]),
    ensures
        ({
            let next = if has_mesh(table, mesh.data.id) {
                table
            } else {
                table.push(*mesh)
            };
            &&& final(entries)@.len() == next.len()
            &&& forall|i: int|
                0 <= i < next.len() ==> #[trigger] final(entries)@[i] == entry_of(next[i])
            &&& result < next.len()
            &&& next[result as int].data.id == mesh.data.id
        }),
{
    let mut i: usize = 0;
    while i < entries.len()
        invariant
            i <= entries@.len(),
            *entries == *old(entries),
            entries@.len() == table.len(),
            forall|j: int| 0 <= j < table.len() ==> #[trigger] entries@[j] == entry_of(table[j]),
            forall|j: int| 0 <= j < i ==> (#[trigger] table[j]).data.id != mesh.data.id,
        decreases entries@.len() - i,
    {
        assert(entries@[i as int] == entry_of(table[i as int]));
        if entries[i].id == mesh.data.id {
            assert(has_mesh(table, mesh.data.id));
            return i;
        }
        i += 1;
    }
    assert(!has_mesh(table, mesh.data.id));
    entries.push(MeshEntry::from_mesh(mesh));
    i
}

/// Finds the line of a material, or adds one.
fn material_slot(entries: &mut Vec<Material>, material: Material) -> (result: usize)
    ensures
        final(entries)@ == if has_material(old(entries)@, material.key()) {
            old(entries)@
        } else {
            old(entries)@.push(material)
        },
        result < final(entries)@.len(),
        final(entries)@[result as int].key() == material.key(),
{
    let mut i: usize = 0;
    while i < entries.len()
        invariant
            i <= entries@.len(),
            *entries == *old(entries),
            forall|j: int| 0 <= j < i ==> (#[trigger] entries@[j]).key() != material.key(),
        decreases entries@.len() - i,
    {
        if entries[i].id == material.id && entries[i].revision == material.revision {
            assert(entries@[i as int].key() == material.key());
            return i;
        }
        i += 1;
    }
    entries.push(material);
    i
}

impl Scene {
    fn saved_slots(&self) -> (result: Vec<SavedSlot>)
        requires
            self.nodes.wf(),
        ensures
            result@.len() == self.nodes.generation_list().len(),
            forall|i: int|
                0 <= i < result@.len() ==> (#[trigger] result@[i]).saved(
                    self.nodes@,
                    slot_handle(i, self.nodes.generation_list()[i]),
                ),
    {
        let generations = self.nodes.generations();
        proof {
            self.nodes.lemma_generations();
        }
        let mut slots: Vec<SavedSlot> = Vec::new();
        let mut i: usize = 0;
        while i < generations.len()
            invariant
                self.nodes.wf(),
                generations@ == self.nodes.generation_list(),
                generations@.len() <= u32::MAX,
                i <= generations@.len(),
                slots@.len() == i,
                forall|j: int|
                    0 <= j < i ==> (#[trigger] slots@[j]).saved(
                        self.nodes@,
                        slot_handle(j, generations@[j]),
                    ),
            decreases generations@.len() - i,
        {
            let generation: u32 = generations[i];
            let h = Handle { index: i as u32, generation };
            let node = match self.nodes.try_borrow(h) {
                Some(node) => Some(NodeRecord::of(node)),
                None => None,
            };
            slots.push(SavedSlot { generation, node });
            i += 1;
        }
        slots
    }

    fn mark_physics(&mut self)
        requires
            old(self).wf(),
        ensures
            final(self).wf(),
            final(self).tree() == old(self).tree(),
            final(self).nodes@.dom() == old(self).nodes@.dom(),
            forall|h: Handle| #[trigger]
                old(self).nodes@.contains_key(h) ==> final(self).nodes@[h] == marked(
                    old(self).nodes@[h],
                ),
            final(self).nodes.capacity() == old(self).nodes.capacity(),
            forall|h: Handle| final(self).nodes.issued(h) == old(self).nodes.issued(h),
            final(self).index == old(self).index,
            final(self).physics == old(self).physics,
            final(self).rest_same(old(self)),
    {
        let handles = self.nodes.handles();
        proof {
            self.nodes.lemma_order();
        }
        let mut i: usize = 0;
        while i < handles.len()
            invariant
                self.wf(),
                self.tree() == old(self).tree(),
                handles@.no_duplicates(),
                forall|h: Handle| #[trigger]
                    handles@.contains(h) <==> old(self).nodes@.contains_key(h),
                i <= handles@.len(),
                self.nodes@.dom() == old(self).nodes@.dom(),
                forall|h: Handle| #[trigger]
                    old(self).nodes@.contains_key(h) ==> self.nodes@[h] == if handles@.take(
                        i as int,
                    ).contains(h) {
                        marked(old(self).nodes@[h])
                    } else {
                        old(self).nodes@[h]
                    },
                self.nodes.capacity() == old(self).nodes.capacity(),
                forall|h: Handle| self.nodes.issued(h) == old(self).nodes.issued(h),
                self.index == old(self).index,
                self.physics == old(self).physics,
                self.rest_same(old(self)),
            decreases handles@.len() - i,
        {
            let h = handles[i];
            proof {
                update::lemma_take_one(handles@, i as int);
                graph::lemma_place_kept(self.nodes@, h);
                assert(handles@.contains(h));
                assert(old(self).nodes@.contains_key(h));
            }
            let node = self.nodes.borrow_mut(h);
            if let Some(body) = &mut node.rigid_body {
                body.desc_dirty = true;
            }
            if let Some(collider) = &mut node.collider {
                collider.desc_dirty = true;
            }
            if let Some(joint) = &mut node.joint {
                joint.dirty = true;
            }
            assert(self.nodes@.dom() =~= old(self).nodes@.dom());
            i += 1;
        }
        assert(handles@.take(i as int) =~= handles@);
    }

    /// Saves the scene, and says how many components were left out. All physics components are
    /// marked as changed by it.
    pub fn write_document(&mut self) -> (result: (SceneDocument, Skipped))
        requires
            old(self).wf(),
        ensures
            result.0.saves(old(self)),
            ({
                let nodes = old(self).nodes@;
                let order = old(self).nodes.order();
                &&& result.1.particles == queries::all_such(
                    order,
                    |h: Handle| nodes[h].particles is Some,
                ).len()
                &&& result.1.animators == queries::all_such(
                    order,
                    |h: Handle| nodes[h].animator is Some,
                ).len()
                &&& result.1.ragdolls == queries::all_such(
                    order,
                    |h: Handle| nodes[h].ragdoll is Some,
                ).len()
            }),
            final(self).wf(),
            final(self).tree() == old(self).tree(),
            final(self).nodes@.dom() == old(self).nodes@.dom(),
            forall|h: Handle| #[trigger]
                old(self).nodes@.contains_key(h) ==> final(self).nodes@[h] == marked(
                    old(self).nodes@[h],
                ),
            final(self).nodes.capacity() == old(self).nodes.capacity(),
            forall|h: Handle| final(self).nodes.issued(h) == old(self).nodes.issued(h),
            final(self).index == old(self).index,
            final(self).physics == old(self).physics,
            final(self).rest_same(old(self)),
    {
        let handles = self.nodes.handles();
        let ghost nodes = self.nodes@;
        let ghost order = handles@;
        let ghost smoking = |h: Handle| nodes[h].particles is Some;
        let ghost moving = |h: Handle| nodes[h].animator is Some;
        let ghost limp = |h: Handle| nodes[h].ragdoll is Some;
        let mut meshes: Vec<MeshEntry> = Vec::new();
        let mut materials: Vec<Material> = Vec::new();
        let mut node_meshes: Vec<TableRef> = Vec::new();
        let mut node_materials: Vec<TableRef> = Vec::new();
        let mut skipped = Skipped { particles: 0, animators: 0, ragdolls: 0 };
        proof {
            self.nodes.lemma_order();
        }
        let mut i: usize = 0;
        while i < handles.len()
            invariant
                self.wf(),
                nodes == self.nodes@,
                order == handles@,
                smoking == (|h: Handle| nodes[h].particles is Some),
                moving == (|h: Handle| nodes[h].animator is Some),
                limp == (|h: Handle| nodes[h].ragdoll is Some),
                forall|k: int| 0 <= k < order.len() ==> nodes.contains_key(#[trigger] order[k]),
                i <= order.len(),
                meshes@.len() == mesh_table(nodes, order.take(i as int)).len(),
                forall|k: int|
                    0 <= k < meshes@.len() ==> #[trigger] meshes@[k] == entry_of(
                        mesh_table(nodes, order.take(i as int))[k],
                    ),
                materials@ == material_table(nodes, order.take(i as int)),
                mesh_refs(
                    node_meshes@,
                    nodes,
                    order.take(i as int),
                    mesh_table(nodes, order.take(i as int)),
                ),
                material_refs(node_materials@, nodes, order.take(i as int), materials@),
                skipped.particles <= i,
                skipped.animators <= i,
                skipped.ragdolls <= i,
                skipped.particles == queries::all_such(order.take(i as int), smoking).len(),
                skipped.animators == queries::all_such(order.take(i as int), moving).len(),
                skipped.ragdolls == queries::all_such(order.take(i as int), limp).len(),
            decreases order.len() - i,
        {
            let h = handles[i];
            let ghost table = mesh_table(nodes, order.take(i as int));
            proof {
                assert(order.take(i + 1).drop_last() =~= order.take(i as int));
                assert(nodes.contains_key(order[i as int]));
            }
            let node = self.nodes.borrow(h);
            if let Some(mesh) = &node.mesh {
                let slot = mesh_slot(&mut meshes, mesh, Ghost(table));
                node_meshes.push(TableRef { node: h, slot });
            }
            if node.particles.is_some() {
                skipped.particles += 1;
            }
            if node.animator.is_some() {
                skipped.animators += 1;
            }
            if node.ragdoll.is_some() {
                skipped.ragdolls += 1;
            }
            if let Some(material) = node.material {
                let slot = material_slot(&mut materials, material);
                node_materials.push(TableRef { node: h, slot });
            }
            i += 1;
        }
        assert(order.take(i as int) =~= order);
        let slots = self.saved_slots();
        let document = SceneDocument {
            version: SCENE_FORMAT_VERSION,
            root: self.root,
            meshes,
            materials,
            slots,
            node_meshes,
            node_materials,
            environment: self.environment,
        };
        assert(document.saves(self));
        self.mark_physics();
        (document, skipped)
    }
}

/// A list brought to a length: cut, or filled up with zeros.
pub open spec fn resized(list: Seq<Real>, n: nat) -> Seq<Real> {
    Seq::new(
        n,
        |i: int|
            if i < list.len() {
                list[i]
            } else {
                Real::zero()
            },
    )
}

fn resize(list: &mut Vec<Real>, n: usize)
    ensures
        final(list)@ == resized(old(list)@, n as nat),
{
    if list.len() > n {
        list.truncate(n);
    }
    let ghost cut = list@;
    while list.len() < n
        invariant
            cut.len() <= list@.len() <= n,
            forall|i: int| 0 <= i < cut.len() ==> list@[i] == cut[i],
            forall|i: int| cut.len() <= i < list@.len() ==> list@[i] == Real::zero(),
        decreases n - list@.len(),
    {
        list.push(Real::zero());
    }
    proof {
        let goal = resized(old(list)@, n as nat);
        assert(list@.len() == goal.len());
        assert forall|i: int| 0 <= i < list@.len() implies list@[i] == goal[i] by {
            if i < cut.len() {
                assert(cut[i] == old(list)@[i]);
            }
        }
        assert(list@ =~= goal);
    }
}

/// Whether a reference gives a mesh to a node.
pub open spec fn gives_mesh(reference: TableRef, table: Seq<Option<Mesh>>, h: Handle) -> bool {
    reference.node == h && reference.slot < table.len() && table[reference.slot as int] is Some
}

/// The mesh that the references give to a node; of several the last.
pub open spec fn mesh_for(refs: Seq<TableRef>, table: Seq<Option<Mesh>>, h: Handle) -> Option<Mesh>
    decreases refs.len(),
{
    if refs.len() == 0 {
        None
    } else if gives_mesh(refs.last(), table, h) {
        table[refs.last().slot as int]
    } else {
        mesh_for(refs.drop_last(), table, h)
    }
}

/// The morph weights of a node, fitted to each mesh that the references give to it.
pub open spec fn weights_for(
    refs: Seq<TableRef>,
    table: Seq<Option<Mesh>>,
    h: Handle,
    saved: Seq<Real>,
) -> Seq<Real>
    decreases refs.len(),
{
    if refs.len() == 0 {
        saved
    } else {
        let front = weights_for(refs.drop_last(), table, h, saved);
        if gives_mesh(refs.last(), table, h) {
            resized(front, table[refs.last().slot as int]->0.data.morph_targets@.len())
        } else {
            front
        }
    }
}

/// The material that the references give to a node; of several the last.
pub open spec fn material_for(refs: Seq<TableRef>, table: Seq<Material>, h: Handle) -> Option<
    Material,
>
    decreases refs.len(),
{
    if refs.len() == 0 {
        None
    } else if refs.last().node == h && refs.last().slot < table.len() {
        Some(table[refs.last().slot as int])
    } else {
        material_for(refs.drop_last(), table, h)
    }
}

impl SceneDocument {
    /// Whether there is a node with this handle.
    pub open spec fn has(&self, h: Handle) -> bool {
        &&& h.index < self.slots@.len()
        &&& self.slots@[h.index as int].generation == h.generation
        &&& self.slots@[h.index as int].node is Some
    }

    /// What is saved of a node.
    pub open spec fn record(&self, h: Handle) -> NodeRecord {
        self.slots@[h.index as int].node->0
    }

    /// The saved tree.
    pub open spec fn links(&self) -> Tree {
        Map::new(
            |h: Handle| self.has(h),
            |h: Handle|
                Links { parent: self.record(h).parent, children: self.record(h).children@ },
        )
    }

    /// The slots can be those of a pool, and the nodes form a tree.
    pub open spec fn sound(&self) -> bool {
        &&& self.slots@.len() <= u32::MAX
        &&& forall|i: int| 0 <= i < self.slots@.len() ==> (#[trigger] self.slots@[i]).generation
            >= 1
        &&& tree::tree_wf(self.links(), self.root)
    }

    /// The meshes of the table; `found` is what the files that it names have given.
    pub open spec fn mesh_list(&self, found: Seq<Option<Mesh>>) -> Seq<Option<Mesh>> {
        Seq::new(self.meshes@.len(), |i: int| self.meshes@[i].resolved(found[i]))
    }
}

/// What has become of a saved node before the scene is updated.
pub open spec fn dressed(
    node: Node,
    document: &SceneDocument,
    found: Seq<Option<Mesh>>,
    h: Handle,
) -> bool {
    let table = document.mesh_list(found);
    &&& document.record(h).revives(node)
    &&& node.mesh == mesh_for(document.node_meshes@, table, h)
    &&& node.morph_weights@ == weights_for(
        document.node_meshes@,
        table,
        h,
        document.record(h).morph_weights@,
    )
    &&& node.material == material_for(document.node_materials@, document.materials@, h)
}

impl Scene {
    /// Whether this scene came out of a document.
    pub open spec fn restores(&self, document: &SceneDocument, found: Seq<Option<Mesh>>) -> bool {
        &&& self.root == document.root
        &&& self.environment == document.environment
        &&& self.nodes.capacity() == document.slots@.len()
        &&& forall|h: Handle| #[trigger] self.nodes@.contains_key(h) <==> document.has(h)
        &&& forall|h: Handle| #[trigger]
            self.nodes@.contains_key(h) ==> {
                &&& dressed(self.nodes@[h], document, found, h)
                &&& self.nodes@[h].global_visible == update::shown(self.nodes@, h)
            }
        &&& forall|h: Handle| #[trigger]
            self.nodes.issued(h) <==> h.index < document.slots@.len() && 1 <= h.generation
                <= document.slots@[h.index as int].generation
        &&& self.tree() == document.links()
        &&& self.index.collects(self.nodes@, tree::preorder(self.tree(), self.root))
        &&& self.culling.handles@.len() == 0
        &&& self.physics.model() == (WorldModel {
            bodies: Map::empty(),
            colliders: Map::empty(),
            joints: Map::empty(),
        })
        &&& self.environment_version == 0
    }
}

impl SceneDocument {
    fn revived_nodes(&self) -> (result: Pool<Node>)
        requires
            self.slots@.len() <= u32::MAX,
            forall|i: int| 0 <= i < self.slots@.len() ==> (#[trigger] self.slots@[i]).generation
                >= 1,
        ensures
            result.wf(),
            result.capacity() == self.slots@.len(),
            forall|h: Handle| #[trigger] result@.contains_key(h) <==> self.has(h),
            forall|h: Handle| #[trigger]
                result@.contains_key(h) ==> {
                    &&& self.record(h).revives(result@[h])
                    &&& result@[h].mesh is None
                    &&& result@[h].material is None
                    &&& result@[h].morph_weights@ == self.record(h).morph_weights@
                },
            forall|h: Handle| #[trigger]
                result.issued(h) <==> h.index < self.slots@.len() && 1 <= h.generation
                    <= self.slots@[h.index as int].generation,
    {
        let mut generations: Vec<u32> = Vec::new();
        let mut values: Vec<Option<Node>> = Vec::new();
        let mut i: usize = 0;
        while i < self.slots.len()
            invariant
                i <= self.slots@.len(),
                forall|j: int|
                    0 <= j < self.slots@.len() ==> (#[trigger] self.slots@[j]).generation >= 1,
                generations@.len() == i,
                values@.len() == i,
                forall|j: int|
                    0 <= j < i ==> #[trigger] generations@[j] == self.slots@[j].generation
                        && generations@[j] >= 1,
                forall|j: int|
                    0 <= j < i ==> {
                        &&& (#[trigger] values@[j]) is Some <==> self.slots@[j].node is Some
                        &&& values@[j] matches Some(node) ==> {
                            let record = self.slots@[j].node->0;
                            &&& record.revives(node)
                            &&& node.mesh is None
                            &&& node.material is None
                            &&& node.morph_weights@ == record.morph_weights@
                        }
                    },
            decreases self.slots@.len() - i,
        {
            assert(self.slots@[i as int].generation >= 1);
            generations.push(self.slots[i].generation);
            let value = match &self.slots[i].node {
                Some(record) => Some(record.revive()),
                None => None,
            };
            values.push(value);
            i += 1;
        }
        let result = Pool::restore(&generations, values);
        proof {
            result.lemma_generations();
            assert forall|h: Handle| #[trigger] result@.contains_key(h) implies self.has(h) by {}
        }
        result
    }

    fn resolve_meshes(&self, found: &Vec<Option<Mesh>>) -> (result: Vec<Option<Mesh>>)
        requires
            found@.len() == self.meshes@.len(),
        ensures
            result@ == self.mesh_list(found@),
    {
        let mut result: Vec<Option<Mesh>> = Vec::new();
        let mut i: usize = 0;
        while i < self.meshes.len()
            invariant
                found@.len() == self.meshes@.len(),
                i <= self.meshes@.len(),
                result@ == self.mesh_list(found@).take(i as int),
            decreases self.meshes@.len() - i,
        {
            result.push(self.meshes[i].resolve(&found[i]));
            i += 1;
            assert(result@ =~= self.mesh_list(found@).take(i as int));
        }
        assert(result@ =~= self.mesh_list(found@));
        result
    }

    fn dress(&self, nodes: &mut Pool<Node>, found: &Vec<Option<Mesh>>)
        requires
            old(nodes).wf(),
            found@.len() == self.meshes@.len(),
            forall|h: Handle| #[trigger]
                old(nodes)@.contains_key(h) ==> {
                    &&& self.record(h).revives(old(nodes)@[h])
                    &&& old(nodes)@[h].mesh is None
                    &&& old(nodes)@[h].material is None
                    &&& old(nodes)@[h].morph_weights@ == self.record(h).morph_weights@
                },
        ensures
            final(nodes).wf(),
            final(nodes).capacity() == old(nodes).capacity(),
            final(nodes)@.dom() == old(nodes)@.dom(),
            forall|h: Handle| #[trigger]
                final(nodes).issued(h) == old(nodes).issued(h),
            forall|h: Handle| #[trigger]
                final(nodes)@.contains_key(h) ==> dressed(final(nodes)@[h], self, found@, h),
    {
        let table = self.resolve_meshes(found);
        let ghost dom = nodes@.dom();
        let mut i: usize = 0;
        assert(self.node_meshes@.take(0) =~= Seq::<TableRef>::empty());
        while i < self.node_meshes.len()
            invariant
                nodes.wf(),
                nodes.capacity() == old(nodes).capacity(),
                nodes@.dom() == dom,
                dom == old(nodes)@.dom(),
                forall|h: Handle| #[trigger] nodes.issued(h) == old(nodes).issued(h),
                table@ == self.mesh_list(found@),
                i <= self.node_meshes@.len(),
                forall|h: Handle| #[trigger]
                    nodes@.contains_key(h) ==> {
                        &&& self.record(h).revives(nodes@[h])
                        &&& nodes@[h].mesh == mesh_for(
                            self.node_meshes@.take(i as int),
                            table@,
                            h,
                        )
                        &&& nodes@[h].material is None
                        &&& nodes@[h].morph_weights@ == weights_for(
                            self.node_meshes@.take(i as int),
                            table@,
                            h,
                            self.record(h).morph_weights@,
                        )
                    },
            decreases self.node_meshes@.len() - i,
        {
            let reference = self.node_meshes[i];
            let ghost before = nodes@;
            proof {
                let next = self.node_meshes@.take(i + 1);
                assert(next.drop_last() =~= self.node_meshes@.take(i as int));
                assert(next.last() == reference);
            }
            if reference.slot < table.len() {
                if let Some(mesh) = &table[reference.slot] {
                    if let Some(node) = nodes.try_borrow_mut(reference.node) {
                        node.mesh = Some(mesh.clone());
                        resize(&mut node.morph_weights, mesh.morph_target_count());
                    }
                }
            }
            proof {
                assert(nodes@.dom() =~= dom);
                assert forall|h: Handle| #[trigger] nodes@.contains_key(h) implies {
                    &&& self.record(h).revives(nodes@[h])
                    &&& nodes@[h].mesh == mesh_for(self.node_meshes@.take(i + 1), table@, h)
                    &&& nodes@[h].material is None
                    &&& nodes@[h].morph_weights@ == weights_for(
                        self.node_meshes@.take(i + 1),
                        table@,
                        h,
                        self.record(h).morph_weights@,
                    )
                } by {
                    assert(before.contains_key(h));
                    if h == reference.node && gives_mesh(reference, table@, h) {
                    } else {
                        assert(nodes@[h] == before[h]);
                    }
                }
            }
            i += 1;
        }
        assert(self.node_meshes@.take(i as int) =~= self.node_meshes@);
        let mut i: usize = 0;
        assert(self.node_materials@.take(0) =~= Seq::<TableRef>::empty());
        while i < self.node_materials.len()
            invariant
                nodes.wf(),
                nodes.capacity() == old(nodes).capacity(),
                nodes@.dom() == dom,
                dom == old(nodes)@.dom(),
                forall|h: Handle| #[trigger] nodes.issued(h) == old(nodes).issued(h),
                table@ == self.mesh_list(found@),
                i <= self.node_materials@.len(),
                forall|h: Handle| #[trigger]
                    nodes@.contains_key(h) ==> {
                        &&& self.record(h).revives(nodes@[h])
                        &&& nodes@[h].mesh == mesh_for(self.node_meshes@, table@, h)
                        &&& nodes@[h].material == material_for(
                            self.node_materials@.take(i as int),
                            self.materials@,
                            h,
                        )
                        &&& nodes@[h].morph_weights@ == weights_for(
                            self.node_meshes@,
                            table@,
                            h,
                            self.record(h).morph_weights@,
                        )
                    },
            decreases self.node_materials@.len() - i,
        {
            let reference = self.node_materials[i];
            let ghost before = nodes@;
            proof {
                let next = self.node_materials@.take(i + 1);
                assert(next.drop_last() =~= self.node_materials@.take(i as int));
                assert(next.last() == reference);
            }
            if reference.slot < self.materials.len() {
                if let Some(node) = nodes.try_borrow_mut(reference.node) {
                    node.material = Some(self.materials[reference.slot]);
                }
            }
            proof {
                assert(nodes@.dom() =~= dom);
                assert forall|h: Handle| #[trigger] nodes@.contains_key(h) implies {
                    &&& self.record(h).revives(nodes@[h])
                    &&& nodes@[h].mesh == mesh_for(self.node_meshes@, table@, h)
                    &&& nodes@[h].material == material_for(
                        self.node_materials@.take(i + 1),
                        self.materials@,
                        h,
                    )
                    &&& nodes@[h].morph_weights@ == weights_for(
                        self.node_meshes@,
                        table@,
                        h,
                        self.record(h).morph_weights@,
                    )
                } by {
                    assert(before.contains_key(h));
                    if h == reference.node && reference.slot < self.materials@.len() {
                    } else {
                        assert(nodes@[h] == before[h]);
                    }
                }
            }
            i += 1;
        }
        assert(self.node_materials@.take(i as int) =~= self.node_materials@);
    }

    fn slots_valid(&self) -> (result: bool)
        ensures
            result == (self.slots@.len() <= u32::MAX && forall|i: int|
                0 <= i < self.slots@.len() ==> (#[trigger] self.slots@[i]).generation >= 1),
    {
        if self.slots.len() > 0xffff_ffff {
            return false;
        }
        let mut i: usize = 0;
        while i < self.slots.len()
            invariant
                i <= self.slots@.len(),
                forall|j: int| 0 <= j < i ==> (#[trigger] self.slots@[j]).generation >= 1,
            decreases self.slots@.len() - i,
        {
            if self.slots[i].generation == 0 {
                assert(self.slots@[i as int].generation < 1);
                return false;
            }
            i += 1;
        }
        true
    }

    proof fn lemma_links(&self, nodes: Map<Handle, Node>, found: Seq<Option<Mesh>>)
        requires
            forall|h: Handle| #[trigger] nodes.contains_key(h) <==> self.has(h),
            forall|h: Handle| #[trigger]
                nodes.contains_key(h) ==> dressed(nodes[h], self, found, h),
        ensures
            graph::links_of(nodes) == self.links(),
    {
        assert forall|h: Handle|
            graph::links_of(nodes).contains_key(h) <==> self.links().contains_key(h) by {
            assert(nodes.contains_key(h) <==> self.has(h));
        }
        assert forall|h: Handle| graph::links_of(nodes).contains_key(h) implies graph::links_of(
            nodes,
        )[h] == self.links()[h] by {
            assert(dressed(nodes[h], self, found, h));
        }
        assert(graph::links_of(nodes) =~= self.links());
    }

    fn assemble(&self, nodes: Pool<Node>, found: &Vec<Option<Mesh>>) -> (result: Scene)
        requires
            nodes.wf(),
            tree::tree_wf(graph::links_of(nodes@), self.root),
            nodes.capacity() == self.slots@.len(),
            forall|h: Handle| #[trigger] nodes@.contains_key(h) <==> self.has(h),
            forall|h: Handle| #[trigger]
                nodes@.contains_key(h) ==> dressed(nodes@[h], self, found@, h),
            forall|h: Handle| #[trigger]
                nodes.issued(h) <==> h.index < self.slots@.len() && 1 <= h.generation
                    <= self.slots@[h.index as int].generation,
        ensures
            result.wf(),
            result.restores(self, found@),
    {
        let ghost before = nodes@;
        let mut scene = Scene::from_parts(nodes, self.root, self.environment);
        proof {
            self.lemma_links(before, found@);
        }
        let order = scene.update();
        proof {
            let t = graph::links_of(before);
            assert(update::only_visibility_differs(before, scene.nodes@));
            update::lemma_shown_again(before, scene.nodes@);
            assert forall|i: int| 0 <= i < order@.len() implies before.contains_key(
                #[trigger] order@[i],
            ) by {
                tree::lemma_below_self(t, self.root, self.root);
                assert(order@.contains(order@[i]));
                assert(tree::below(t, self.root, order@[i]));
            }
            update::lemma_collects_again(scene.index, before, scene.nodes@, order@);
            assert forall|h: Handle| #[trigger] scene.nodes@.contains_key(h) implies {
                &&& dressed(scene.nodes@[h], self, found@, h)
                &&& scene.nodes@[h].global_visible == update::shown(scene.nodes@, h)
            } by {
                assert(before.contains_key(h));
                assert(dressed(before[h], self, found@, h));
            }
        }
        scene
    }

    /// Reads a scene. `found` holds, for each line of the table of meshes that names a file, the
    /// mesh that was found there; nodes whose mesh was not found are read without one. The scene
    /// comes updated.
    pub fn read(&self, found: &Vec<Option<Mesh>>) -> (result: Result<Scene, SceneLoadError>)
        requires
            found@.len() == self.meshes@.len(),
        ensures
            match result {
                Ok(scene) => {
                    &&& self.version == SCENE_FORMAT_VERSION
                    &&& self.sound()
                    &&& scene.wf()
                    &&& scene.restores(self, found@)
                },
                Err(SceneLoadError::Version { found: version }) => self.version
                    != SCENE_FORMAT_VERSION && version == self.version,
                Err(SceneLoadError::Broken) => self.version == SCENE_FORMAT_VERSION
                    && !self.sound(),
            },
    {
        if self.version != SCENE_FORMAT_VERSION {
            return Err(SceneLoadError::Version { found: self.version });
        }
        if !self.slots_valid() {
            return Err(SceneLoadError::Broken);
        }
        let mut nodes = self.revived_nodes();
        self.dress(&mut nodes, found);
        proof {
            self.lemma_links(nodes@, found@);
        }
        if !shape::is_tree(&nodes, self.root) {
            return Err(SceneLoadError::Broken);
        }
        Ok(self.assemble(nodes, found))
    }
}

proof fn lemma_no_ref(
    refs: Seq<TableRef>,
    table: Seq<Option<Mesh>>,
    h: Handle,
    saved: Seq<Real>,
)
    requires
        forall|i: int| 0 <= i < refs.len() ==> (#[trigger] refs[i]).node != h,
    ensures
        mesh_for(refs, table, h) is None,
        weights_for(refs, table, h, saved) == saved,
    decreases refs.len(),
{
    if refs.len() > 0 {
        let front = refs.drop_last();
        assert(refs[refs.len() - 1].node != h);
        assert forall|i: int| 0 <= i < front.len() implies (#[trigger] front[i]).node != h by {
            assert(front[i] == refs[i]);
        }
        lemma_no_ref(front, table, h, saved);
    }
}

proof fn lemma_one_ref(
    refs: Seq<TableRef>,
    table: Seq<Option<Mesh>>,
    h: Handle,
    saved: Seq<Real>,
    k: int,
)
    requires
        0 <= k < refs.len(),
        refs[k].node == h,
        refs[k].slot < table.len(),
        forall|i: int| 0 <= i < refs.len() && i != k ==> (#[trigger] refs[i]).node != h,
    ensures
        mesh_for(refs, table, h) == table[refs[k].slot as int],
        weights_for(refs, table, h, saved) == match table[refs[k].slot as int] {
            Some(mesh) => resized(saved, mesh.data.morph_targets@.len()),
            None => saved,
        },
    decreases refs.len(),
{
    let front = refs.drop_last();
    assert forall|i: int| 0 <= i < front.len() && i != k implies (#[trigger] front[i]).node
        != h by {
        assert(front[i] == refs[i]);
    }
    if k == refs.len() - 1 {
        lemma_no_ref(front, table, h, saved);
    } else {
        assert(refs[refs.len() - 1].node != h);
        assert(front[k] == refs[k]);
        lemma_one_ref(front, table, h, saved, k);
    }
}

proof fn lemma_no_material_ref(refs: Seq<TableRef>, table: Seq<Material>, h: Handle)
    requires
        forall|i: int| 0 <= i < refs.len() ==> (#[trigger] refs[i]).node != h,
    ensures
        material_for(refs, table, h) is None,
    decreases refs.len(),
{
    if refs.len() > 0 {
        let front = refs.drop_last();
        assert(refs[refs.len() - 1].node != h);
        assert forall|i: int| 0 <= i < front.len() implies (#[trigger] front[i]).node != h by {
            assert(front[i] == refs[i]);
        }
        lemma_no_material_ref(front, table, h);
    }
}

proof fn lemma_one_material_ref(refs: Seq<TableRef>, table: Seq<Material>, h: Handle, k: int)
    requires
        0 <= k < refs.len(),
        refs[k].node == h,
        refs[k].slot < table.len(),
        forall|i: int| 0 <= i < refs.len() && i != k ==> (#[trigger] refs[i]).node != h,
    ensures
        material_for(refs, table, h) == Some(table[refs[k].slot as int]),
    decreases refs.len(),
{
    let front = refs.drop_last();
    assert forall|i: int| 0 <= i < front.len() && i != k implies (#[trigger] front[i]).node
        != h by {
        assert(front[i] == refs[i]);
    }
    if k < refs.len() - 1 {
        assert(refs[refs.len() - 1].node != h);
        assert(front[k] == refs[k]);
        lemma_one_material_ref(front, table, h, k);
    }
}

proof fn lemma_table_has(nodes: Map<Handle, Node>, list: Seq<Handle>)
    ensures
        forall|i: int|
            0 <= i < mesh_table(nodes, list).len() ==> exists|h: Handle|
                list.contains(h) && #[trigger] nodes[h].mesh == Some(
                    #[trigger] mesh_table(nodes, list)[i],
                ),
        forall|i: int|
            0 <= i < material_table(nodes, list).len() ==> exists|h: Handle|
                list.contains(h) && #[trigger] nodes[h].material == Some(
                    #[trigger] material_table(nodes, list)[i],
                ),
    decreases list.len(),
{
    if list.len() > 0 {
        let front = list.drop_last();
        let last = list.last();
        lemma_table_has(nodes, front);
        assert(list[list.len() - 1] == last);
        assert forall|h: Handle| front.contains(h) implies list.contains(h) by {
            let k = choose|k: int| 0 <= k < front.len() && front[k] == h;
            assert(list[k] == h);
        }
        let meshes = mesh_table(nodes, list);
        let fewer = mesh_table(nodes, front);
        assert forall|i: int| 0 <= i < meshes.len() implies exists|h: Handle|
            list.contains(h) && #[trigger] nodes[h].mesh == Some(#[trigger] meshes[i]) by {
            if i < fewer.len() {
                assert(meshes[i] == fewer[i]);
                let h = choose|h: Handle|
                    front.contains(h) && #[trigger] nodes[h].mesh == Some(fewer[i]);
                assert(list.contains(h));
            } else {
                assert(nodes[last].mesh == Some(meshes[i]));
            }
        }
        let materials = material_table(nodes, list);
        let less = material_table(nodes, front);
        assert forall|i: int| 0 <= i < materials.len() implies exists|h: Handle|
            list.contains(h) && #[trigger] nodes[h].material == Some(#[trigger] materials[i]) by {
            if i < less.len() {
                assert(materials[i] == less[i]);
                let h = choose|h: Handle|
                    front.contains(h) && #[trigger] nodes[h].material == Some(less[i]);
                assert(list.contains(h));
            } else {
                assert(nodes[last].material == Some(materials[i]));
            }
        }
    }
}

/// All meshes with the id of this one are this one.
pub open spec fn one_mesh(nodes: Map<Handle, Node>, mesh: Mesh) -> bool {
    forall|x: Handle|
        nodes.contains_key(x) && #[trigger] nodes[x].mesh is Some && nodes[x].mesh->0.data.id
            == mesh.data.id ==> nodes[x].mesh == Some(mesh)
}

/// All meshes with that id were made on the spot.
pub open spec fn all_made_here(nodes: Map<Handle, Node>, id: u128) -> bool {
    forall|x: Handle|
        nodes.contains_key(x) && #[trigger] nodes[x].mesh is Some && nodes[x].mesh->0.data.id == id
            ==> nodes[x].mesh->0.made_here()
}

/// All materials with the key of this one are this one.
pub open spec fn one_material(nodes: Map<Handle, Node>, material: Material) -> bool {
    forall|x: Handle|
        nodes.contains_key(x) && #[trigger] nodes[x].material is Some && nodes[x].material->0.key()
            == material.key() ==> nodes[x].material == Some(material)
}

proof fn lemma_has(document: &SceneDocument, scene: &Scene)
    requires
        scene.nodes.wf(),
        document.saves(scene),
    ensures
        forall|h: Handle| #[trigger] document.has(h) <==> scene.nodes@.contains_key(h),
        forall|h: Handle| #[trigger]
            document.has(h) ==> document.record(h).describes(scene.nodes@[h]),
{
    scene.nodes.lemma_generations();
    let generations = scene.nodes.generation_list();
    assert forall|h: Handle| #[trigger]
        document.has(h) <==> scene.nodes@.contains_key(h) by {
        if h.index < document.slots@.len() {
            let i = h.index as int;
            assert(document.slots@[i].saved(scene.nodes@, slot_handle(i, generations[i])));
            if generations[i] == h.generation {
                assert(slot_handle(i, generations[i]) == h);
            }
        }
    }
    assert forall|h: Handle| #[trigger] document.has(h) implies document.record(h).describes(
        scene.nodes@[h],
    ) by {
        let i = h.index as int;
        assert(document.slots@[i].saved(scene.nodes@, slot_handle(i, generations[i])));
        assert(slot_handle(i, generations[i]) == h);
    }
}

/// What is saved can be read: a document made from a scene is never refused.
pub proof fn lemma_saved_can_be_read(scene: &Scene, document: &SceneDocument)
    requires
        scene.wf(),
        document.saves(scene),
    ensures
        document.version == SCENE_FORMAT_VERSION,
        document.sound(),
        document.links() == scene.tree(),
{
    lemma_has(document, scene);
    scene.nodes.lemma_generations();
    let generations = scene.nodes.generation_list();
    assert(document.links() =~= scene.tree()) by {
        assert forall|h: Handle|
            document.links().contains_key(h) <==> scene.tree().contains_key(h) by {
            assert(document.has(h) <==> scene.nodes@.contains_key(h));
        }
        assert forall|h: Handle| document.links().contains_key(h) implies document.links()[h]
            == scene.tree()[h] by {
            assert(document.has(h));
        }
    }
    assert forall|i: int| 0 <= i < document.slots@.len() implies (
    #[trigger] document.slots@[i]).generation >= 1 by {
        assert(document.slots@[i].saved(scene.nodes@, slot_handle(i, generations[i])));
        assert(generations[i] >= 1);
    }
}

/// A node came back as it was saved.
pub open spec fn same_saved(a: Node, b: Node) -> bool {
    &&& b.name@ == a.name@
    &&& b.transform == a.transform
    &&& b.visible == a.visible
    &&& b.camera == a.camera
    &&& b.light == a.light
    &&& b.parent == a.parent
    &&& b.children@ == a.children@
    &&& match (a.skin, b.skin) {
        (Some(x), Some(y)) => x.wf() ==> y.joints@ == x.joints@ && y.inverse_bind@
            == x.inverse_bind@,
        (None, None) => true,
        _ => false,
    }
    &&& match (a.rigid_body, b.rigid_body) {
        (Some(x), Some(y)) => y.desc == x.desc && y.native is None,
        (None, None) => true,
        _ => false,
    }
    &&& match (a.collider, b.collider) {
        (Some(x), Some(y)) => y.desc == x.desc && y.native is None,
        (None, None) => true,
        _ => false,
    }
    &&& match (a.joint, b.joint) {
        (Some(x), Some(y)) => y.desc == x.desc && y.body1 == x.body1 && y.body2 == x.body2
            && y.native is None,
        (None, None) => true,
        _ => false,
    }
    &&& match (a.lod, b.lod) {
        (Some(x), Some(y)) => x.wf() ==> y.levels@ == x.levels@ && y.auto_update == x.auto_update,
        (None, None) => true,
        _ => false,
    }
    &&& match (a.script, b.script) {
        (Some(x), Some(y)) => y.path@ == x.path@ && y.enabled == x.enabled && y.state@ == x.state@
            && !y.live() && !y.failed,
        (None, None) => true,
        _ => false,
    }
}

/// A node that was recorded and revived is as it was saved.
pub proof fn lemma_record_is_faithful(record: NodeRecord, a: Node, b: Node)
    requires
        record.describes(a),
        record.revives(b),
    ensures
        same_saved(a, b),
{
    if a.skin is Some && a.skin->0.wf() {
        let saved = record.skin->0;
        assert(saved.joints@.take(saved.joints@.len() as int) =~= saved.joints@);
        assert(saved.inverse_bind@.take(saved.inverse_bind@.len() as int) =~= saved.inverse_bind@);
    }
    if a.lod is Some && a.lod->0.wf() {
        crate::scene::lod::lemma_levels_survive_saving(&a.lod->0);
    }
}

/// A scene that was saved and read is the same again: the same handles, the same tree, the same
/// environment, and every node as it was saved.
pub proof fn lemma_saved_comes_back(
    scene: &Scene,
    document: &SceneDocument,
    found: Seq<Option<Mesh>>,
    restored: &Scene,
)
    requires
        scene.wf(),
        document.saves(scene),
        restored.restores(document, found),
    ensures
        restored.root == scene.root,
        restored.environment == scene.environment,
        restored.tree() == scene.tree(),
        restored.nodes@.dom() == scene.nodes@.dom(),
        forall|h: Handle| restored.nodes.issued(h) == scene.nodes.issued(h),
        forall|h: Handle| #[trigger]
            scene.nodes@.contains_key(h) ==> same_saved(scene.nodes@[h], restored.nodes@[h]),
{
    lemma_saved_can_be_read(scene, document);
    lemma_has(document, scene);
    scene.nodes.lemma_generations();
    let generations = scene.nodes.generation_list();
    assert forall|h: Handle| restored.nodes.issued(h) == scene.nodes.issued(h) by {
        if h.index < document.slots@.len() {
            let i = h.index as int;
            assert(document.slots@[i].saved(scene.nodes@, slot_handle(i, generations[i])));
        }
    }
    assert forall|h: Handle| restored.nodes@.contains_key(h) <==> scene.nodes@.contains_key(h) by {
        assert(document.has(h) <==> scene.nodes@.contains_key(h));
    }
    assert(restored.nodes@.dom() =~= scene.nodes@.dom());
    assert forall|h: Handle| #[trigger] scene.nodes@.contains_key(h) implies same_saved(
        scene.nodes@[h],
        restored.nodes@[h],
    ) by {
        assert(document.has(h));
        assert(restored.nodes@.contains_key(h));
        lemma_record_is_faithful(document.record(h), scene.nodes@[h], restored.nodes@[h]);
    }
}

/// The mesh and the material of a node that was saved and read. A node without a mesh stays
/// without, and keeps its weights; a mesh that was made on the spot comes back by its id, with the
/// weights that fit it; a mesh out of a file is the one that was found for it. Materials come back
/// by their key. Only where different meshes have one id, or different materials one key, it is the
/// first of them that all come back as.
pub proof fn lemma_looks_come_back(
    scene: &Scene,
    document: &SceneDocument,
    found: Seq<Option<Mesh>>,
    restored: &Scene,
    h: Handle,
)
    requires
        scene.wf(),
        document.saves(scene),
        restored.restores(document, found),
        scene.nodes@.contains_key(h),
    ensures
        ({
            let a = scene.nodes@[h];
            let b = restored.nodes@[h];
            &&& a.mesh is None ==> b.mesh is None && b.morph_weights@ == a.morph_weights@
            &&& a.mesh matches Some(mesh) ==> exists|i: int|
                {
                    &&& 0 <= i < document.meshes@.len()
                    &&& (#[trigger] document.meshes@[i]).id == mesh.data.id
                    &&& b.mesh == document.meshes@[i].resolved(found[i])
                }
            &&& a.mesh is Some && all_made_here(scene.nodes@, a.mesh->0.data.id) ==> {
                &&& b.mesh is Some
                &&& b.mesh->0.data.id == a.mesh->0.data.id
                &&& b.morph_weights@ == resized(
                    a.morph_weights@,
                    b.mesh->0.data.morph_targets@.len(),
                )
                &&& one_mesh(scene.nodes@, a.mesh->0) ==> b.mesh == a.mesh
                &&& b.mesh->0.data.morph_targets@.len() == a.morph_weights@.len()
                    ==> b.morph_weights@ == a.morph_weights@
            }
            &&& a.material is None <==> b.material is None
            &&& a.material matches Some(material) ==> b.material->0.key() == material.key()
            &&& a.material is Some && one_material(scene.nodes@, a.material->0) ==> b.material
                == a.material
        }),
{
    lemma_has(document, scene);
    scene.nodes.lemma_order();
    let nodes = scene.nodes@;
    let order = scene.nodes.order();
    let a = nodes[h];
    let b = restored.nodes@[h];
    let table = document.mesh_list(found);
    let meshes = mesh_table(nodes, order);
    let saved = document.record(h).morph_weights@;
    assert(document.has(h));
    assert(order.contains(h));
    assert(restored.nodes@.contains_key(h));
    assert(dressed(b, document, found, h));
    lemma_table_has(nodes, order);
    let wearers = queries::all_such(order, with_mesh(nodes));
    let refs = document.node_meshes@;
    queries::lemma_all_such(order, with_mesh(nodes));
    if a.mesh is None {
        assert forall|i: int| 0 <= i < refs.len() implies (#[trigger] refs[i]).node != h by {
            assert(wearers.contains(wearers[i]));
        }
        lemma_no_ref(refs, table, h, saved);
    } else {
        assert(wearers.contains(h));
        let k = choose|k: int| 0 <= k < wearers.len() && wearers[k] == h;
        assert(refs[k].node == h);
        assert forall|i: int| 0 <= i < refs.len() && i != k implies (#[trigger] refs[i]).node
            != h by {
            assert(refs[i].node == wearers[i]);
        }
        lemma_one_ref(refs, table, h, saved, k);
        let slot = refs[k].slot as int;
        assert(document.meshes@[slot] == entry_of(meshes[slot]));
        let owner = choose|x: Handle|
            order.contains(x) && #[trigger] nodes[x].mesh == Some(meshes[slot]);
        assert(nodes.contains_key(owner));
        assert(nodes[owner].mesh->0.data.id == a.mesh->0.data.id);
        assert(resized(saved, saved.len()) =~= saved);
    }
    let clad = queries::all_such(order, with_material(nodes));
    let uses = document.node_materials@;
    queries::lemma_all_such(order, with_material(nodes));
    if a.material is None {
        assert forall|i: int| 0 <= i < uses.len() implies (#[trigger] uses[i]).node != h by {
            assert(clad.contains(clad[i]));
        }
        lemma_no_material_ref(uses, document.materials@, h);
    } else {
        assert(clad.contains(h));
        let k = choose|k: int| 0 <= k < clad.len() && clad[k] == h;
        assert(uses[k].node == h);
        assert forall|i: int| 0 <= i < uses.len() && i != k implies (#[trigger] uses[i]).node
            != h by {
            assert(uses[i].node == clad[i]);
        }
        lemma_one_material_ref(uses, document.materials@, h, k);
        let slot = uses[k].slot as int;
        let owner = choose|x: Handle|
            order.contains(x) && #[trigger] nodes[x].material == Some(document.materials@[slot]);
        assert(nodes.contains_key(owner));
        assert(nodes[owner].material->0.key() == a.material->0.key());
    }
}

/// A node without anything out of a file: its mesh, if it has one, was made on the spot, and it has
/// as many weights as its mesh has targets.
pub open spec fn procedural(node: Node) -> bool {
    &&& node.skin is Some ==> node.skin->0.wf()
    &&& node.mesh is Some ==> {
        &&& node.mesh->0.made_here()
        &&& node.morph_weights@.len() == node.mesh->0.data.morph_targets@.len()
    }
}

/// A scene without meshes out of files is the same again once it was saved and read: the document is
/// readable, and the root, the handles, the tree and every node come back, with its name, transform,
/// visibility, camera, light, mesh id, weights, joints of its skin, and physics components, which
/// have no counterpart in the solver yet. Where different meshes have one id, they come back as one,
/// and the weights are those that fit it.
pub proof fn lemma_procedural_scene_comes_back(
    scene: &Scene,
    document: &SceneDocument,
    found: Seq<Option<Mesh>>,
    restored: &Scene,
)
    requires
        scene.wf(),
        forall|h: Handle| #[trigger] scene.nodes@.contains_key(h) ==> procedural(scene.nodes@[h]),
        document.saves(scene),
        document.version == SCENE_FORMAT_VERSION && document.sound() ==> restored.restores(
            document,
            found,
        ),
    ensures
        document.version == SCENE_FORMAT_VERSION,
        document.sound(),
        restored.root == scene.root,
        restored.tree() == scene.tree(),
        restored.nodes@.dom() == scene.nodes@.dom(),
        forall|h: Handle| #[trigger]
            scene.nodes@.contains_key(h) ==> {
                let a = scene.nodes@[h];
                let b = restored.nodes@[h];
                &&& same_saved(a, b)
                &&& a.skin is Some ==> b.skin->0.joints@ == a.skin->0.joints@
                    && b.skin->0.inverse_bind@ == a.skin->0.inverse_bind@
                &&& a.mesh is Some <==> b.mesh is Some
                &&& a.mesh is Some ==> b.mesh->0.data.id == a.mesh->0.data.id
                &&& a.mesh is Some && one_mesh(scene.nodes@, a.mesh->0) ==> b.mesh == a.mesh
                &&& a.mesh is None || one_mesh(scene.nodes@, a.mesh->0) ==> b.morph_weights@
                    == a.morph_weights@
            },
{
    lemma_saved_can_be_read(scene, document);
    lemma_saved_comes_back(scene, document, found, restored);
    assert forall|h: Handle| #[trigger] scene.nodes@.contains_key(h) implies {
        let a = scene.nodes@[h];
        let b = restored.nodes@[h];
        &&& a.mesh is Some <==> b.mesh is Some
        &&& a.mesh is Some ==> b.mesh->0.data.id == a.mesh->0.data.id
        &&& a.mesh is Some && one_mesh(scene.nodes@, a.mesh->0) ==> b.mesh == a.mesh
        &&& a.mesh is None || one_mesh(scene.nodes@, a.mesh->0) ==> b.morph_weights@
            == a.morph_weights@
    } by {
        lemma_looks_come_back(scene, document, found, restored, h);
        if scene.nodes@[h].mesh is Some {
            assert(all_made_here(scene.nodes@, scene.nodes@[h].mesh->0.data.id));
        }
    }
}

/// Nodes whose meshes had one id share one mesh after reading.
pub proof fn lemma_shared_meshes_stay_shared(
    scene: &Scene,
    document: &SceneDocument,
    found: Seq<Option<Mesh>>,
    restored: &Scene,
    x: Handle,
    y: Handle,
)
    requires
        scene.wf(),
        document.saves(scene),
        restored.restores(document, found),
        scene.nodes@.contains_key(x),
        scene.nodes@.contains_key(y),
        scene.nodes@[x].mesh is Some,
        scene.nodes@[y].mesh is Some,
        scene.nodes@[x].mesh->0.data.id == scene.nodes@[y].mesh->0.data.id,
    ensures
        restored.nodes@[x].mesh == restored.nodes@[y].mesh,
{
    lemma_looks_come_back(scene, document, found, restored, x);
    lemma_looks_come_back(scene, document, found, restored, y);
    let id = scene.nodes@[x].mesh->0.data.id;
    let i = choose|i: int|
        {
            &&& 0 <= i < document.meshes@.len()
            &&& (#[trigger] document.meshes@[i]).id == id
            &&& restored.nodes@[x].mesh == document.meshes@[i].resolved(found[i])
        };
    let j = choose|j: int|
        {
            &&& 0 <= j < document.meshes@.len()
            &&& (#[trigger] document.meshes@[j]).id == id
            &&& restored.nodes@[y].mesh == document.meshes@[j].resolved(found[j])
        };
    lemma_ids_differ(scene.nodes@, scene.nodes.order());
    let meshes = mesh_table(scene.nodes@, scene.nodes.order());
    assert(document.meshes@[i] == entry_of(meshes[i]));
    assert(document.meshes@[j] == entry_of(meshes[j]));
}

/// No mesh stands in the table twice.
pub proof fn lemma_ids_differ(nodes: Map<Handle, Node>, list: Seq<Handle>)
    ensures
        forall|i: int, j: int|
            0 <= i < j < mesh_table(nodes, list).len() ==> (
            #[trigger] mesh_table(nodes, list)[i]).data.id != (
            #[trigger] mesh_table(nodes, list)[j]).data.id,
    decreases list.len(),
{
    if list.len() > 0 {
        let front = list.drop_last();
        lemma_ids_differ(nodes, front);
        let now = mesh_table(nodes, list);
        let before = mesh_table(nodes, front);
        assert forall|i: int, j: int| 0 <= i < j < now.len() implies (
        #[trigger] now[i]).data.id != (#[trigger] now[j]).data.id by {
            assert(now[i] == before[i]);
            if j < before.len() {
                assert(now[j] == before[j]);
            } else {
                assert(before[i].data.id != now[j].data.id);
            }
        }
    }
}

/// No material stands in the table twice.
pub proof fn lemma_keys_differ(nodes: Map<Handle, Node>, list: Seq<Handle>)
    ensures
        forall|i: int, j: int|
            0 <= i < j < material_table(nodes, list).len() ==> (
            #[trigger] material_table(nodes, list)[i]).key() != (
            #[trigger] material_table(nodes, list)[j]).key(),
    decreases list.len(),
{
    if list.len() > 0 {
        let front = list.drop_last();
        lemma_keys_differ(nodes, front);
        let now = material_table(nodes, list);
        let before = material_table(nodes, front);
        assert forall|i: int, j: int| 0 <= i < j < now.len() implies (
        #[trigger] now[i]).key() != (#[trigger] now[j]).key() by {
            assert(now[i] == before[i]);
            if j < before.len() {
                assert(now[j] == before[j]);
            } else {
                assert(before[i].key() != now[j].key());
            }
        }
    }
}

/// Two records hold the same.
pub open spec fn same_record(a: NodeRecord, b: NodeRecord) -> bool {
    &&& a.name@ == b.name@
    &&& a.transform == b.transform
    &&& a.visible == b.visible
    &&& a.morph_weights@ == b.morph_weights@
    &&& a.camera == b.camera
    &&& a.light == b.light
    &&& match (a.skin, b.skin) {
        (Some(x), Some(y)) => x.joints@ == y.joints@ && x.inverse_bind@ == y.inverse_bind@,
        (None, None) => true,
        _ => false,
    }
    &&& a.rigid_body == b.rigid_body
    &&& a.collider == b.collider
    &&& a.joint == b.joint
    &&& match (a.lod, b.lod) {
        (Some(x), Some(y)) => x.distances@ == y.distances@ && x.hysteresis@ == y.hysteresis@
            && x.auto_update == y.auto_update,
        (None, None) => true,
        _ => false,
    }
    &&& match (a.script, b.script) {
        (Some(x), Some(y)) => x.path@ == y.path@ && x.enabled == y.enabled && x.state@ == y.state@,
        (None, None) => true,
        _ => false,
    }
    &&& a.parent == b.parent
    &&& a.children@ == b.children@
}

/// Two documents that say the same.
pub open spec fn same_document(a: &SceneDocument, b: &SceneDocument) -> bool {
    &&& a.version == b.version
    &&& a.root == b.root
    &&& a.environment == b.environment
    &&& a.meshes@ == b.meshes@
    &&& a.materials@ == b.materials@
    &&& a.node_meshes@ == b.node_meshes@
    &&& a.node_materials@ == b.node_materials@
    &&& a.slots@.len() == b.slots@.len()
    &&& forall|i: int|
        0 <= i < a.slots@.len() ==> {
            &&& (#[trigger] a.slots@[i]).generation == b.slots@[i].generation
            &&& match (a.slots@[i].node, b.slots@[i].node) {
                (Some(x), Some(y)) => same_record(x, y),
                (None, None) => true,
                _ => false,
            }
        }
}

/// A scene has one document: whoever saves it, and however often, gets the same.
pub proof fn lemma_one_document(scene: &Scene, a: &SceneDocument, b: &SceneDocument)
    requires
        scene.wf(),
        a.saves(scene),
        b.saves(scene),
    ensures
        same_document(a, b),
{
    let nodes = scene.nodes@;
    let order = scene.nodes.order();
    let meshes = mesh_table(nodes, order);
    assert forall|i: int| 0 <= i < meshes.len() implies a.meshes@[i] == b.meshes@[i] by {
        assert(a.meshes@[i] == entry_of(meshes[i]));
    }
    assert(a.meshes@ =~= b.meshes@);
    lemma_ids_differ(nodes, order);
    lemma_keys_differ(nodes, order);
    assert forall|k: int| 0 <= k < a.node_meshes@.len() implies a.node_meshes@[k]
        == b.node_meshes@[k] by {
        let (x, y) = (a.node_meshes@[k].slot as int, b.node_meshes@[k].slot as int);
        assert(meshes[x].data.id == meshes[y].data.id);
        if x < y {
            assert(meshes[x].data.id != meshes[y].data.id);
        } else if y < x {
            assert(meshes[y].data.id != meshes[x].data.id);
        }
    }
    assert(a.node_meshes@ =~= b.node_meshes@);
    let materials = material_table(nodes, order);
    assert forall|k: int| 0 <= k < a.node_materials@.len() implies a.node_materials@[k]
        == b.node_materials@[k] by {
        let (x, y) = (a.node_materials@[k].slot as int, b.node_materials@[k].slot as int);
        assert(materials[x].key() == materials[y].key());
        if x < y {
            assert(materials[x].key() != materials[y].key());
        } else if y < x {
            assert(materials[y].key() != materials[x].key());
        }
    }
    assert(a.node_materials@ =~= b.node_materials@);
    let generations = scene.nodes.generation_list();
    assert forall|i: int| 0 <= i < a.slots@.len() implies {
        &&& (#[trigger] a.slots@[i]).generation == b.slots@[i].generation
        &&& match (a.slots@[i].node, b.slots@[i].node) {
            (Some(x), Some(y)) => same_record(x, y),
            (None, None) => true,
            _ => false,
        }
    } by {
        let h = slot_handle(i, generations[i]);
        assert(a.slots@[i].saved(nodes, h));
        assert(b.slots@[i].saved(nodes, h));
    }
}

proof fn lemma_same_tables(a: Map<Handle, Node>, b: Map<Handle, Node>, list: Seq<Handle>)
    requires
        forall|i: int|
            0 <= i < list.len() ==> a[#[trigger] list[i]].mesh == b[list[i]].mesh && a[list[i]].material
                == b[list[i]].material,
    ensures
        mesh_table(a, list) == mesh_table(b, list),
        material_table(a, list) == material_table(b, list),
        queries::all_such(list, with_mesh(a)) == queries::all_such(list, with_mesh(b)),
        queries::all_such(list, with_material(a)) == queries::all_such(list, with_material(b)),
    decreases list.len(),
{
    if list.len() > 0 {
        let front = list.drop_last();
        assert forall|i: int| 0 <= i < front.len() implies a[#[trigger] front[i]].mesh
            == b[front[i]].mesh && a[front[i]].material == b[front[i]].material by {
            assert(front[i] == list[i]);
        }
        lemma_same_tables(a, b, front);
        assert(list[list.len() - 1] == list.last());
    }
}

/// Saving a scene twice in a row gives the same document twice, though the first time marks the
/// physics components as changed.
pub proof fn lemma_saving_twice_is_the_same(
    before: &Scene,
    first: &SceneDocument,
    between: &Scene,
    second: &SceneDocument,
)
    requires
        before.wf(),
        between.wf(),
        first.saves(before),
        second.saves(between),
        between.root == before.root,
        between.environment == before.environment,
        between.nodes@.dom() == before.nodes@.dom(),
        forall|h: Handle| #[trigger]
            before.nodes@.contains_key(h) ==> between.nodes@[h] == marked(before.nodes@[h]),
        between.nodes.capacity() == before.nodes.capacity(),
        forall|h: Handle| between.nodes.issued(h) == before.nodes.issued(h),
    ensures
        same_document(first, second),
{
    let (a, b) = (before.nodes@, between.nodes@);
    before.nodes.lemma_same_layout(&between.nodes);
    before.nodes.lemma_order();
    let order = before.nodes.order();
    let generations = before.nodes.generation_list();
    assert forall|i: int| 0 <= i < order.len() implies a[#[trigger] order[i]].mesh
        == b[order[i]].mesh && a[order[i]].material == b[order[i]].material by {
        assert(a.contains_key(order[i]));
    }
    lemma_same_tables(a, b, order);
    assert forall|i: int| 0 <= i < second.slots@.len() implies (#[trigger] second.slots@[i]).saved(
        a,
        slot_handle(i, generations[i]),
    ) by {
        let h = slot_handle(i, generations[i]);
        assert(second.slots@[i].saved(b, h));
        assert(b.contains_key(h) == a.contains_key(h));
        if a.contains_key(h) {
            assert(b[h] == marked(a[h]));
        }
    }
    let wearers = queries::all_such(order, with_mesh(a));
    queries::lemma_all_such(order, with_mesh(a));
    let refs = second.node_meshes@;
    assert forall|k: int| 0 <= k < refs.len() implies {
        &&& (#[trigger] refs[k]).node == wearers[k]
        &&& refs[k].slot < mesh_table(a, order).len()
        &&& mesh_table(a, order)[refs[k].slot as int].data.id == a[wearers[k]].mesh->0.data.id
    } by {
        assert(wearers.contains(wearers[k]));
        assert(a.contains_key(wearers[k]));
    }
    let clad = queries::all_such(order, with_material(a));
    queries::lemma_all_such(order, with_material(a));
    let uses = second.node_materials@;
    assert forall|k: int| 0 <= k < uses.len() implies {
        &&& (#[trigger] uses[k]).node == clad[k]
        &&& uses[k].slot < material_table(a, order).len()
        &&& material_table(a, order)[uses[k].slot as int].key() == a[clad[k]].material->0.key()
    } by {
        assert(clad.contains(clad[k]));
        assert(a.contains_key(clad[k]));
    }
    assert(second.saves(before));
    lemma_one_document(before, first, second);
}

/// A mesh out of a file is saved as a reference to that file and comes back as what was found there,
/// or not at all if nothing was; one that was made on the spot is saved whole and comes back as it is,
/// whatever was found.
pub proof fn lemma_mesh_comes_back_from_where_it_was(mesh: Mesh, found: Option<Mesh>)
    ensures
        entry_of(mesh).id == mesh.data.id,
        entry_of(mesh).source == mesh.data.source,
        mesh.data.source is Some ==> entry_of(mesh).inline is None && entry_of(mesh).resolved(found)
            == found,
        mesh.data.source is None ==> entry_of(mesh).resolved(found) == Some(mesh),
{
}

/// A node that was read starts anew where it has to do with the solver, with scripts or with the eye:
/// its physics components are unknown to the solver and to be told to it whole, its first level is
/// shown until one is chosen, its script waits to be started. What is not saved is as in a new node.
pub proof fn lemma_revived_node_starts_anew(record: NodeRecord, node: Node)
    requires
        record.revives(node),
    ensures
        node.rigid_body matches Some(body) ==> {
            &&& body.native is None
            &&& body.desc_dirty
            &&& body.actions@.len() == 0
            &&& Some(body.desc) == record.rigid_body
        },
        node.collider matches Some(collider) ==> {
            &&& collider.native is None
            &&& collider.bound_to is None
            &&& collider.desc_dirty
            &&& !collider.shape_dirty
            &&& Some(collider.desc) == record.collider
        },
        node.joint matches Some(joint) ==> {
            &&& joint.native is None
            &&& joint.dirty
            &&& joint.desc == record.joint->0.desc
            &&& joint.body1 == record.joint->0.body1
            &&& joint.body2 == record.joint->0.body2
        },
        node.lod matches Some(lod) ==> lod.current == 0,
        node.script matches Some(slot) ==> slot.instance == 0xffff_ffff && !slot.failed,
        node.receives_decals,
        node.light_mask == 0xffff_ffff,
        node.particles is None,
        node.animator is None,
        node.ragdoll is None,
        node.terrain is None,
        node.sound is None,
{
}

/// Weights are cut to what fits, and filled up with zeros.
pub proof fn lemma_weights_are_fitted(list: Seq<Real>, n: nat, i: int)
    requires
        0 <= i < n,
    ensures
        resized(list, n).len() == n,
        i < list.len() ==> resized(list, n)[i] == list[i],
        i >= list.len() ==> resized(list, n)[i].bits == 0,
{
}

} // verus!
