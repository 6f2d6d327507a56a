//! Grounds made of heights.
//!
//! Each chunk of a ground is an ordinary child node with a mesh, so that culling, shadows and
//! saving need not know of grounds. The collider is one height field on the ground's own node.

use crate::numbers::{Mat4, Quat, Real, Vec3};
use crate::pool::Handle;
use crate::scene::graph;
use crate::scene::graph::{NodeIndex, Scene};
use crate::scene::mesh::{Material, Mesh};
use crate::scene::node::Node;
use crate::scene::physics::{Collider, ColliderDesc, ColliderShape};
use crate::text;
use vstd::prelude::*;

verus! {

/// A chunk that was built anew.
#[derive(Debug)]
pub struct ChunkMesh {
    /// The number of the chunk.
    pub index: usize,
    pub mesh: Mesh,
}

/// Where a ray hit a ground, in the world.
#[derive(Debug, Clone, Copy, PartialEq, Eq, Structural)]
pub struct TerrainHit {
    pub point: Vec3,
    pub distance: Real,
}

/// The name of a chunk's node.
pub open spec fn chunk_name(index: usize) -> Seq<char> {
    "__chunk"@ + text::decimal(index as nat)
}

/// The first of the listed nodes that has that name.
pub open spec fn named_child(
    nodes: Map<Handle, Node>,
    list: Seq<Handle>,
    name: Seq<char>,
) -> Option<Handle>
    decreases list.len(),
{
    if list.len() == 0 {
        None
    } else if nodes.contains_key(list[0]) && nodes[list[0]].name@ == name {
        Some(list[0])
    } else {
        named_child(nodes, list.drop_first(), name)
    }
}

/// The children of a node, if it is there.
pub open spec fn children_of(nodes: Map<Handle, Node>, h: Handle) -> Seq<Handle> {
    if nodes.contains_key(h) {
        nodes[h].children@
    } else {
        Seq::empty()
    }
}

/// The material of a node, if it is there and has one.
pub open spec fn material_of(nodes: Map<Handle, Node>, h: Handle) -> Option<Material> {
    if nodes.contains_key(h) {
        nodes[h].material
    } else {
        None
    }
}

/// The node of a chunk that was not there before.
pub open spec fn chunk_node(node: Node, chunk: ChunkMesh, material: Option<Material>) -> bool {
    &&& node.unadorned()
    &&& node.name@ == chunk_name(chunk.index)
    &&& node.transform == crate::numbers::Transform::identity()
    &&& node.mesh == Some(chunk.mesh)
    &&& node.morph_weights@ == chunk.mesh.default_weights()
    &&& node.material == material
}

/// One chunk brought in step: the child of its name gets the mesh, or else a child is added.
/// `start` is what there was before the first chunk.
pub open spec fn chunk_synced(
    before: &Scene,
    after: &Scene,
    start: &Scene,
    handle: Handle,
    chunk: ChunkMesh,
    touched: Handle,
) -> bool {
    match named_child(
        start.nodes@,
        children_of(start.nodes@, handle),
        chunk_name(chunk.index),
    ) {
        Some(child) => {
            &&& touched == child
            &&& if before.nodes@.contains_key(child) {
                &&& after.nodes@ == before.nodes@.insert(child, after.nodes@[child])
                &&& after.nodes@[child].remeshed(before.nodes@[child], chunk.mesh)
            } else {
                after.nodes@ == before.nodes@
            }
            &&& after.index == before.index
            &&& after.physics == before.physics
            &&& after.rest_same(before)
        },
        None => exists|node: Node|
            {
                &&& #[trigger] after.gained(before, touched, node, before.or_root(handle))
                &&& chunk_node(node, chunk, material_of(start.nodes@, handle))
            },
    }
}

/// The chunks of a list brought in step one after the other.
pub open spec fn chunks_synced(
    scenes: Seq<Scene>,
    handle: Handle,
    chunks: Seq<ChunkMesh>,
    touched: Seq<Handle>,
) -> bool {
    &&& scenes.len() == chunks.len() + 1
    &&& touched.len() == chunks.len()
    &&& forall|k: int|
        0 <= k < chunks.len() ==> chunk_synced(
            &scenes[k],
            &scenes[k + 1],
            &scenes[0],
            handle,
            #[trigger] chunks[k],
            touched[k],
        )
}

/// A chunk was given what the update of the frame came too early for.
pub open spec fn adopted(before: &Scene, after: &Scene, parent: Handle, child: Handle, global: Mat4) -> bool {
    let node = before.nodes@[child];
    let visible = before.nodes@[parent].global_visible && node.visible;
    &&& after.nodes@ == before.nodes@.insert(
        child,
        Node { global_transform: global, global_visible: visible, ..node },
    )
    &&& after.index.drawables@ == graph::enlisted(
        before.index.drawables@,
        child,
        visible && node.mesh is Some,
    )
}

/// A ground was given its height field as its collider.
pub open spec fn grounded(before: Map<Handle, Node>, after: Map<Handle, Node>, h: Handle) -> bool {
    let terrain = before[h].terrain->0;
    &&& after == before.insert(h, Node { collider: after[h].collider, ..before[h] })
    &&& after[h].collider is Some
    &&& after[h].collider->0.native is None
    &&& after[h].collider->0.desc == (ColliderDesc {
        shape: ColliderShape::Heightfield {
            rows: terrain.rows,
            cols: terrain.cols,
            heights: terrain.heights,
            scale: terrain.scale,
        },
        position: terrain.collider_offset,
        rotation: Quat::identity(),
        ..after[h].collider->0.desc
    })
    &&& !after[h].collider->0.desc.is_sensor
}

impl Scene {
    fn find_child(&self, list: &Vec<Handle>, name: &str) -> (result: Option<Handle>)
        ensures
            result == named_child(self.nodes@, list@, name@),
    {
        let mut i: usize = 0;
        assert(list@.skip(0) =~= list@);
        while i < list.len()
            invariant
                i <= list@.len(),
                named_child(self.nodes@, list@, name@) == named_child(
                    self.nodes@,
                    list@.skip(i as int),
                    name@,
                ),
            decreases list@.len() - i,
        {
            assert(list@.skip(i as int)[0] == list@[i as int]);
            assert(list@.skip(i as int).drop_first() =~= list@.skip(i + 1));
            if let Some(node) = self.nodes.try_borrow(list[i]) {
                if text::same_text(node.name.as_str(), name) {
                    return Some(list[i]);
                }
            }
            i += 1;
        }
        None
    }

    /// Gives the chunks that were built anew to the children that stand for them, and adds children
    /// for chunks that have none. Children are found by name: others may stand between them.
    pub fn sync_terrain_chunks(&mut self, handle: Handle, chunks: Vec<ChunkMesh>) -> (result: Vec<
        Handle,
    >)
        requires
            old(self).wf(),
            old(self).nodes.capacity() + chunks@.len() <= u32::MAX,
        ensures
            final(self).wf(),
            result@.len() == chunks@.len(),
            exists|scenes: Seq<Scene>|
                {
                    &&& #[trigger] chunks_synced(scenes, handle, chunks@, result@)
                    &&& scenes[0] == *old(self)
                    &&& scenes.last() == *final(self)
                },
            final(self).nodes.capacity() <= old(self).nodes.capacity() + chunks@.len(),
    {
        let mut existing: Vec<Option<Handle>> = Vec::new();
        let mut children: Vec<Handle> = Vec::new();
        let mut material: Option<Material> = None;
        if let Some(node) = self.nodes.try_borrow(handle) {
            children.extend_from_slice(node.children.as_slice());
            material = node.material;
        }
        assert(children@ =~= children_of(self.nodes@, handle));
        let mut i: usize = 0;
        while i < chunks.len()
            invariant
                i <= chunks@.len(),
                children@ == children_of(self.nodes@, handle),
                existing@.len() == i,
                forall|k: int|
                    0 <= k < i ==> #[trigger] existing@[k] == named_child(
                        self.nodes@,
                        children@,
                        chunk_name(chunks@[k].index),
                    ),
            decreases chunks@.len() - i,
        {
            let name = text::joined("__chunk", text::number(chunks[i].index as u64).as_str());
            existing.push(self.find_child(&children, name.as_str()));
            i += 1;
        }
        let ghost given = chunks@;
        let mut touched: Vec<Handle> = Vec::new();
        let ghost mut scenes: Seq<Scene> = seq![*self];
        let mut i: usize = 0;
        while i < chunks.len()
            invariant
                self.wf(),
                given == chunks@,
                i <= chunks@.len(),
                existing@.len() == chunks@.len(),
                children@ == children_of(old(self).nodes@, handle),
                material == material_of(old(self).nodes@, handle),
                forall|k: int|
                    0 <= k < chunks@.len() ==> #[trigger] existing@[k] == named_child(
                        old(self).nodes@,
                        children@,
                        chunk_name(chunks@[k].index),
                    ),
                touched@.len() == i,
                scenes.len() == i + 1,
                scenes[0] == *old(self),
                scenes[i as int] == *self,
                forall|k: int|
                    0 <= k < i ==> chunk_synced(
                        &scenes[k],
                        &scenes[k + 1],
                        &scenes[0],
                        handle,
                        #[trigger] chunks@[k],
                        touched@[k],
                    ),
                self.nodes.capacity() <= old(self).nodes.capacity() + i,
                old(self).nodes.capacity() + chunks@.len() <= u32::MAX,
            decreases chunks@.len() - i,
        {
            let mesh = chunks[i].mesh.clone();
            let ghost before = *self;
            match existing[i] {
                Some(child) => {
                    proof {
                        graph::lemma_place_kept(self.nodes@, child);
                    }
                    if let Some(node) = self.nodes.try_borrow_mut(child) {
                        node.set_mesh(mesh);
                    }
                    touched.push(child);
                },
                None => {
                    let name = text::joined(
                        "__chunk",
                        text::number(chunks[i].index as u64).as_str(),
                    );
                    let mut node = Node::new(name.as_str()).with_mesh(mesh);
                    if let Some(material) = material {
                        node.set_material(material);
                    }
                    let ghost made = node;
                    let child = self.add_node_with_parent(node, handle);
                    touched.push(child);
                    proof {
                        assert(self.gained(&before, child, made, before.or_root(handle)));
                        assert(chunk_node(
                            made,
                            chunks@[i as int],
                            material_of(old(self).nodes@, handle),
                        ));
                    }
                },
            }
            proof {
                assert(existing@[i as int] == named_child(
                    old(self).nodes@,
                    children@,
                    chunk_name(chunks@[i as int].index),
                ));
                assert(chunk_synced(
                    &before,
                    self,
                    old(self),
                    handle,
                    chunks@[i as int],
                    touched@[i as int],
                ));
                scenes = scenes.push(*self);
            }
            i += 1;
        }
        assert(chunks_synced(scenes, handle, chunks@, touched@));
        touched
    }

    /// Works out for a chunk what the update of this frame came too early for: it stands where
    /// `global` says, it is shown if the ground is shown and it is visible, and if it is drawn it
    /// enters the index.
    pub fn adopt_terrain_chunk(&mut self, parent: Handle, child: Handle, global: Mat4)
        requires
            old(self).wf(),
        ensures
            old(self).nodes@.contains_key(parent) && old(self).nodes@.contains_key(child) ==> adopted(
                old(self),
                final(self),
                parent,
                child,
                global,
            ),
            final(self).wf(),
            final(self).tree() == old(self).tree(),
            if old(self).nodes@.contains_key(parent) && old(self).nodes@.contains_key(child) {
                let node = old(self).nodes@[child];
                let visible = old(self).nodes@[parent].global_visible && node.visible;
                &&& final(self).nodes@ == old(self).nodes@.insert(
                    child,
                    Node { global_transform: global, global_visible: visible, ..node },
                )
                &&& final(self).index.drawables@ == graph::enlisted(
                    old(self).index.drawables@,
                    child,
                    visible && node.mesh is Some,
                )
            } else {
                &&& final(self).nodes@ == old(self).nodes@
                &&& final(self).index.drawables@ == old(self).index.drawables@
            },
            final(self).index == (NodeIndex {
                drawables: final(self).index.drawables,
                ..old(self).index
            }),
            final(self).nodes.capacity() == old(self).nodes.capacity(),
            final(self).physics == old(self).physics,
            final(self).rest_same(old(self)),
    {
        let above: bool = match self.nodes.try_borrow(parent) {
            Some(node) => node.global_visible,
            None => {
                return;
            },
        };
        proof {
            graph::lemma_place_kept(self.nodes@, child);
        }
        let mut drawable: bool = false;
        if let Some(node) = self.nodes.try_borrow_mut(child) {
            node.global_transform = global;
            node.global_visible = above && node.visible;
            drawable = node.global_visible && node.mesh.is_some();
        }
        if drawable && !graph::lists(&self.index.drawables, child) {
            let ghost before = self.index.drawables@;
            self.index.drawables.push(child);
            proof {
                let now = self.index.drawables@;
                assert forall|i: int, j: int| 0 <= i < j < now.len() implies now[i] != now[j] by {
                    assert(before[i] == now[i]);
                    assert(before.contains(before[i]));
                    if j < before.len() {
                        assert(before[j] == now[j]);
                    }
                }
            }
        }
    }

    /// Gives a ground a height field as its collider, moved from the middle, where height fields
    /// begin, to the corner, where grounds do. Nodes without a ground are left alone.
    pub fn attach_terrain_collider(&mut self, handle: Handle)
        requires
            old(self).wf(),
        ensures
            old(self).nodes@.contains_key(handle) && old(self).nodes@[handle].terrain is Some
                ==> grounded(old(self).nodes@, final(self).nodes@, handle),
            final(self).wf(),
            final(self).tree() == old(self).tree(),
            final(self).nodes@ == if old(self).nodes@.contains_key(handle) && old(
                self,
            ).nodes@[handle].terrain is Some {
                let node = old(self).nodes@[handle];
                let terrain = node.terrain->0;
                old(self).nodes@.insert(
                    handle,
                    Node {
                        collider: Some(
                            Collider::new(
                                ColliderDesc::new(
                                    ColliderShape::Heightfield {
                                        rows: terrain.rows,
                                        cols: terrain.cols,
                                        heights: terrain.heights,
                                        scale: terrain.scale,
                                    },
                                ).with_offset(terrain.collider_offset, Quat::identity()),
                            ),
                        ),
                        ..node
                    },
                )
            } else {
                old(self).nodes@
            },
            final(self).nodes.capacity() == old(self).nodes.capacity(),
            final(self).index == old(self).index,
            final(self).physics == old(self).physics,
            final(self).rest_same(old(self)),
    {
        let terrain = match self.nodes.try_borrow(handle) {
            Some(node) => match node.terrain {
                Some(terrain) => terrain,
                None => {
                    return;
                },
            },
            None => {
                return;
            },
        };
        proof {
            graph::lemma_place_kept(self.nodes@, handle);
        }
        let shape = ColliderShape::Heightfield {
            rows: terrain.rows,
            cols: terrain.cols,
            heights: terrain.heights,
            scale: terrain.scale,
        };
        let desc = ColliderDesc::new(shape).with_offset(terrain.collider_offset, Quat::identity());
        self.nodes.borrow_mut(handle).collider = Some(Collider::new(desc));
    }

    /// Whether there is a ground behind a number of the index.
    pub open spec fn ground_at(&self, i: int) -> bool {
        let h = self.index.terrains@[i];
        self.nodes@.contains_key(h) && self.nodes@[h].terrain is Some
    }

    /// The number of the nearest hit among the first `n` grounds; of equals the first.
    pub open spec fn nearest_hit(&self, hits: Seq<Option<TerrainHit>>, n: nat) -> Option<int>
        decreases n,
    {
        if n == 0 {
            None
        } else {
            let front = self.nearest_hit(hits, (n - 1) as nat);
            match hits[n - 1] {
                Some(hit) if self.ground_at(n - 1) && (front is None || hit.distance.less(
                    hits[front->0]->0.distance,
                )) => Some(n - 1),
                _ => front,
            }
        }
    }

    /// Which ground a ray hits first, and where. `hits` holds where the ray hits each ground of the
    /// index on its own.
    pub fn raycast_terrain(&self, hits: &Vec<Option<TerrainHit>>) -> (result: Option<
        (Handle, Vec3),
    >)
        requires
            hits@.len() == self.index.terrains@.len(),
        ensures
            match self.nearest_hit(hits@, hits@.len()) {
                Some(i) => result == Some((self.index.terrains@[i], hits@[i]->0.point)),
                None => result is None,
            },
    {
        let mut best: Option<(Handle, TerrainHit)> = None;
        let mut i: usize = 0;
        while i < self.index.terrains.len()
            invariant
                hits@.len() == self.index.terrains@.len(),
                i <= hits@.len(),
                match self.nearest_hit(hits@, i as nat) {
                    Some(k) => {
                        &&& 0 <= k < i
                        &&& hits@[k] is Some
                        &&& best == Some((self.index.terrains@[k], hits@[k]->0))
                    },
                    None => best is None,
                },
            decreases hits@.len() - i,
        {
            let handle = self.index.terrains[i];
            if let Some(node) = self.nodes.try_borrow(handle) {
                if node.terrain.is_some() {
                    if let Some(hit) = hits[i] {
                        let nearer: bool = match best {
                            Some((_, other)) => hit.distance.is_less(other.distance),
                            None => true,
                        };
                        if nearer {
                            best = Some((handle, hit));
                        }
                    }
                }
            }
            i += 1;
        }
        match best {
            Some((handle, hit)) => Some((handle, hit.point)),
            None => None,
        }
    }
}

/// Chunks are not made twice: a chunk whose child is there gets its mesh into that child, and the
/// scene has no more nodes than before.
pub proof fn lemma_chunks_are_not_duplicated(
    before: &Scene,
    after: &Scene,
    handle: Handle,
    chunk: ChunkMesh,
    touched: Handle,
)
    requires
        chunk_synced(before, after, before, handle, chunk, touched),
        named_child(
            before.nodes@,
            children_of(before.nodes@, handle),
            chunk_name(chunk.index),
        ) is Some,
    ensures
        after.nodes@.dom() == before.nodes@.dom(),
        before.nodes@[touched].name@ == chunk_name(chunk.index),
{
    let list = children_of(before.nodes@, handle);
    lemma_named_child(before.nodes@, list, chunk_name(chunk.index));
    assert(after.nodes@.dom() =~= before.nodes@.dom());
}

proof fn lemma_named_child(nodes: Map<Handle, Node>, list: Seq<Handle>, name: Seq<char>)
    ensures
        named_child(nodes, list, name) matches Some(h) ==> nodes.contains_key(h) && nodes[h].name@
            == name && list.contains(h),
    decreases list.len(),
{
    if list.len() > 0 && !(nodes.contains_key(list[0]) && nodes[list[0]].name@ == name) {
        lemma_named_child(nodes, list.drop_first(), name);
        if let Some(h) = named_child(nodes, list, name) {
            let rest = list.drop_first();
            let i = choose|i: int| 0 <= i < rest.len() && rest[i] == h;
            assert(list[i + 1] == h);
        }
    }
}

} // verus!
