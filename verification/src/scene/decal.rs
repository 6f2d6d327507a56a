//! Decals: pictures that stick to what is in the scene.
//!
//! Cutting the shapes of the receivers to the decal's volume is the caller's business. Which nodes
//! receive the decal, and how the cut pieces become one node, is decided here.

use crate::numbers::{Aabb, Real, Vec3};
use crate::pool::Handle;
use crate::scene::graph::Scene;
use crate::scene::mesh::{BlendMode, Material, Mesh, MorphTarget, Vertex};
use crate::scene::node::Node;
use crate::scene::queries;
use crate::tree;
use vstd::prelude::*;

verus! {

/// The volume that a decal is projected through.
#[derive(Debug, Clone, Copy, PartialEq, Eq, Structural)]
pub struct Decal {
    pub position: Vec3,
    pub normal: Vec3,
    pub size: Vec3,
    pub angle: Real,
}

/// What is projected, and onto what.
#[derive(Debug)]
pub struct DecalOptions {
    pub decal: Decal,
    /// It is blended whatever it says: the border of a decal is transparent.
    pub material: Material,
    /// The name of the decal's node.
    pub name: String,
    /// Only nodes of this subtree receive it; without it, all do.
    pub root: Option<Handle>,
}

impl DecalOptions {
    pub fn new(decal: Decal, material: Material) -> (result: Self)
        ensures
            result.decal == decal,
            result.material == material,
            result.name@ == "Decal"@,
            result.root is None,
    {
        DecalOptions { decal, material, name: "Decal".to_owned(), root: None }
    }

    pub fn with_name(self, name: &str) -> (result: Self)
        ensures
            result.name@ == name@,
            result == (DecalOptions { name: result.name, ..self }),
    {
        DecalOptions { name: name.to_owned(), ..self }
    }

    pub fn with_root(self, root: Handle) -> (result: Self)
        ensures
            result == (DecalOptions { root: Some(root), ..self }),
    {
        DecalOptions { root: Some(root), ..self }
    }
}

/// What was cut out of one receiver, in the world.
#[derive(Debug)]
pub struct Piece {
    pub vertices: Vec<Vertex>,
    pub indices: Vec<u32>,
}

impl Piece {
    /// Every corner names a vertex.
    pub open spec fn wf(self) -> bool {
        forall|i: int|
            0 <= i < self.indices@.len() ==> #[trigger] self.indices@[i] < self.vertices@.len()
    }
}

/// The vertices of all pieces, one after the other.
pub open spec fn all_vertices(pieces: Seq<Option<Piece>>) -> Seq<Vertex>
    decreases pieces.len(),
{
    if pieces.len() == 0 {
        Seq::empty()
    } else {
        let front = all_vertices(pieces.drop_last());
        match pieces.last() {
            Some(piece) => front + piece.vertices@,
            None => front,
        }
    }
}

/// The corners of all pieces, counted on over the vertices of the pieces before.
pub open spec fn all_indices(pieces: Seq<Option<Piece>>) -> Seq<u32>
    decreases pieces.len(),
{
    if pieces.len() == 0 {
        Seq::empty()
    } else {
        let front = all_indices(pieces.drop_last());
        let base = all_vertices(pieces.drop_last()).len();
        match pieces.last() {
            Some(piece) => front + piece.indices@.map_values(|i: u32| (i + base) as u32),
            None => front,
        }
    }
}

/// The pieces are sound, and their vertices can be counted.
pub open spec fn joinable(pieces: Seq<Option<Piece>>) -> bool {
    &&& forall|i: int|
        0 <= i < pieces.len() ==> (#[trigger] pieces[i] matches Some(piece) ==> piece.wf())
    &&& all_vertices(pieces).len() <= u32::MAX
}

proof fn lemma_fewer_vertices(pieces: Seq<Option<Piece>>, n: int)
    requires
        0 <= n <= pieces.len(),
    ensures
        all_vertices(pieces.take(n)).len() <= all_vertices(pieces).len(),
    decreases pieces.len() - n,
{
    if n < pieces.len() {
        lemma_fewer_vertices(pieces, n + 1);
        assert(pieces.take(n + 1).drop_last() =~= pieces.take(n));
    } else {
        assert(pieces.take(n) =~= pieces);
    }
}

/// Joining pieces keeps every corner pointing at a vertex.
pub proof fn lemma_joined_indices_stay_in_range(pieces: Seq<Option<Piece>>)
    requires
        joinable(pieces),
    ensures
        forall|i: int|
            0 <= i < all_indices(pieces).len() ==> #[trigger] all_indices(pieces)[i]
                < all_vertices(pieces).len(),
    decreases pieces.len(),
{
    if pieces.len() > 0 {
        let front = pieces.drop_last();
        let n = pieces.len() - 1;
        assert(front =~= pieces.take(n));
        lemma_fewer_vertices(pieces, n);
        assert forall|i: int| 0 <= i < front.len() implies (#[trigger] front[i] matches Some(piece)
            ==> piece.wf()) by {
            assert(front[i] == pieces[i]);
        }
        lemma_joined_indices_stay_in_range(front);
        let base = all_vertices(front).len();
        assert forall|i: int| 0 <= i < all_indices(pieces).len() implies #[trigger] all_indices(
            pieces,
        )[i] < all_vertices(pieces).len() by {
            if i < all_indices(front).len() {
                assert(all_indices(pieces)[i] == all_indices(front)[i]);
            } else if let Some(piece) = pieces.last() {
                assert(pieces[n] == pieces.last());
                let k = i - all_indices(front).len();
                assert(piece.indices@[k] < piece.vertices@.len());
                assert(all_indices(pieces)[i] == (piece.indices@[k] + base) as u32);
            }
        }
    }
}

fn join(pieces: &Vec<Option<Piece>>) -> (result: (Vec<Vertex>, Vec<u32>))
    requires
        joinable(pieces@),
    ensures
        result.0@ == all_vertices(pieces@),
        result.1@ == all_indices(pieces@),
{
    let mut vertices: Vec<Vertex> = Vec::new();
    let mut indices: Vec<u32> = Vec::new();
    let mut i: usize = 0;
    while i < pieces.len()
        invariant
            joinable(pieces@),
            i <= pieces@.len(),
            vertices@ == all_vertices(pieces@.take(i as int)),
            indices@ == all_indices(pieces@.take(i as int)),
        decreases pieces@.len() - i,
    {
        proof {
            assert(pieces@.take(i + 1).drop_last() =~= pieces@.take(i as int));
            lemma_fewer_vertices(pieces@, i + 1);
        }
        if let Some(piece) = &pieces[i] {
            assert(pieces@[i as int] matches Some(piece) ==> piece.wf());
            let ghost before = vertices@;
            let ghost earlier = indices@;
            let base: u32 = vertices.len() as u32;
            vertices.extend_from_slice(piece.vertices.as_slice());
            assert(vertices@ =~= before + piece.vertices@);
            let ghost moved = piece.indices@.map_values(|i: u32| (i + before.len()) as u32);
            let mut j: usize = 0;
            while j < piece.indices.len()
                invariant
                    j <= piece.indices@.len(),
                    piece.wf(),
                    base == before.len(),
                    before.len() + piece.vertices@.len() <= u32::MAX,
                    moved == piece.indices@.map_values(|i: u32| (i + before.len()) as u32),
                    indices@ == earlier + moved.take(j as int),
                decreases piece.indices@.len() - j,
            {
                assert(piece.indices@[j as int] < piece.vertices@.len());
                indices.push(piece.indices[j] + base);
                j += 1;
                assert(indices@ =~= earlier + moved.take(j as int));
            }
            assert(moved.take(j as int) =~= moved);
        }
        i += 1;
    }
    assert(pieces@.take(i as int) =~= pieces@);
    (vertices, indices)
}

impl Scene {
    /// A node that takes a decal: it is drawn, does not move with joints, lets decals stick to it,
    /// touches the decal's box and hangs under `root`, if there is one.
    pub open spec fn receives(&self, bounds: Aabb, root: Option<Handle>) -> spec_fn(Handle) -> bool {
        |h: Handle|
            {
                &&& self.nodes@.contains_key(h)
                &&& self.nodes@[h].skin is None
                &&& self.nodes@[h].receives_decals
                &&& self.nodes@[h].global_visible
                &&& self.nodes@[h].global_aabb.overlaps(bounds)
                &&& root matches Some(root) ==> self.nodes@.contains_key(root) && tree::below(
                    self.tree(),
                    root,
                    h,
                )
            }
    }

    /// The nodes that a decal with this box sticks to. They go by what the last update found.
    pub fn decal_receivers(&self, bounds: Aabb, root: Option<Handle>) -> (result: Vec<Handle>)
        requires
            self.wf(),
        ensures
            result@ == queries::all_such(self.index.drawables@, self.receives(bounds, root)),
    {
        let ghost list = self.index.drawables@;
        let ghost keep = self.receives(bounds, root);
        let mut result: Vec<Handle> = Vec::new();
        let mut i: usize = 0;
        while i < self.index.drawables.len()
            invariant
                self.wf(),
                list == self.index.drawables@,
                keep == self.receives(bounds, root),
                i <= list.len(),
                result@ == queries::all_such(list.take(i as int), keep),
            decreases list.len() - i,
        {
            let h = self.index.drawables[i];
            assert(list.take(i + 1).drop_last() =~= list.take(i as int));
            if let Some(node) = self.nodes.try_borrow(h) {
                if node.skin.is_none() && node.receives_decals && node.global_visible
                    && node.global_aabb.intersects(&bounds) {
                    let inside: bool = match root {
                        Some(root) => self.nodes.is_valid_handle(root) && self.is_ancestor_or_self(
                            root,
                            h,
                        ),
                        None => true,
                    };
                    if inside {
                        result.push(h);
                    }
                }
            }
            i += 1;
        }
        assert(list.take(i as int) =~= list);
        result
    }

    /// Makes one node out of the pieces that were cut out of the receivers, and adds it under the
    /// root. Where nothing was cut there is no node. `id` names the new mesh.
    pub fn spawn_decal(
        &mut self,
        options: &DecalOptions,
        pieces: &Vec<Option<Piece>>,
        id: u128,
    ) -> (result: Option<Handle>)
        requires
            old(self).wf(),
            old(self).nodes.capacity() < u32::MAX,
            joinable(pieces@),
        ensures
            final(self).wf(),
            result is Some <==> all_indices(pieces@).len() > 0,
            result is None ==> *final(self) == *old(self),
            result matches Some(h) ==> {
                &&& !old(self).nodes.issued(h)
                &&& exists|node: Node|
                    {
                        &&& #[trigger] final(self).gained(old(self), h, node, old(self).root)
                        &&& stuck(node, options, pieces@, id)
                    }
            },
            final(self).nodes.capacity() <= old(self).nodes.capacity() + 1,
    {
        let (vertices, indices) = join(pieces);
        if indices.len() == 0 {
            return None;
        }
        let mut material = options.material;
        material.set_blend_mode(BlendMode::Alpha);
        let mut node = Node::new(options.name.as_str()).with_mesh(
            Mesh::new(id, vertices, indices),
        ).with_material(material);
        node.receives_decals = false;
        let ghost made = node;
        proof {
            assert(made.morph_weights@ =~= Seq::<Real>::empty());
            assert(stuck(made, options, pieces@, id));
        }
        let handle = self.add_node(node);
        Some(handle)
    }
}

/// The node of a decal: the joined pieces, blended, and nothing sticks to it.
pub open spec fn stuck(
    node: Node,
    options: &DecalOptions,
    pieces: Seq<Option<Piece>>,
    id: u128,
) -> bool {
    &&& node.name@ == options.name@
    &&& node.mesh is Some
    &&& node.mesh->0.data.id == id
    &&& node.mesh->0.made_here()
    &&& node.mesh->0.data.morph_targets@ == Seq::<MorphTarget>::empty()
    &&& node.mesh->0.data.vertices@ == all_vertices(pieces)
    &&& node.mesh->0.data.indices@ == all_indices(pieces)
    &&& node.material == Some(Material { blend_mode: BlendMode::Alpha, ..options.material })
    &&& !node.receives_decals
    &&& (Node {
        receives_decals: true,
        mesh: None,
        material: None,
        ..node
    }).bare(options.name@)
}

/// A decal does not stick to a decal.
pub proof fn lemma_decals_do_not_stack(scene: &Scene, bounds: Aabb, root: Option<Handle>, h: Handle)
    requires
        !scene.nodes@[h].receives_decals,
    ensures
        !queries::all_such(scene.index.drawables@, scene.receives(bounds, root)).contains(h),
{
    queries::lemma_all_such(scene.index.drawables@, scene.receives(bounds, root));
}

} // verus!
