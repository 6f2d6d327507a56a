//! Meshes and materials, as far as the scene looks into them.

use crate::numbers::{Real, Vec3};
use std::sync::Arc;
use vstd::prelude::*;

verus! {

/// One corner of a triangle.
#[derive(Debug, Clone, Copy, PartialEq, Eq, Hash, Structural)]
pub struct Vertex {
    pub position: Vec3,
    pub normal: Vec3,
    pub u: Real,
    pub v: Real,
}

/// The model file that a mesh comes from, and its number there.
#[derive(Debug)]
pub struct MeshSource {
    pub path: String,
    pub index: usize,
}

impl Clone for MeshSource {
    fn clone(&self) -> (result: Self)
        ensures
            result == *self,
    {
        MeshSource { path: self.path.clone(), index: self.index }
    }
}

/// A shape that a mesh can be pulled towards.
#[derive(Debug)]
pub struct MorphTarget {
    pub name: String,
    /// How far it is pulled unless somebody says otherwise.
    pub default_weight: Real,
}

/// What a mesh consists of.
#[derive(Debug)]
pub struct MeshData {
    pub id: u128,
    pub source: Option<MeshSource>,
    pub morph_targets: Vec<MorphTarget>,
    pub vertices: Vec<Vertex>,
    pub indices: Vec<u32>,
}

/// A mesh. Copies share their data.
#[derive(Debug)]
pub struct Mesh {
    pub data: Arc<MeshData>,
}

/// `Arc::clone` makes another pointer to the same value, so the result is equal to the argument.
#[verifier::external_body]
fn shared(data: &Arc<MeshData>) -> (result: Arc<MeshData>)
    ensures
        result == *data,
{
    Arc::clone(data)
}

impl Clone for Mesh {
    fn clone(&self) -> (result: Self)
        ensures
            result == *self,
    {
        Mesh { data: shared(&self.data) }
    }
}

impl Mesh {
    /// A mesh made on the spot: it comes from no file and has no morph targets.
    pub fn new(id: u128, vertices: Vec<Vertex>, indices: Vec<u32>) -> (result: Self)
        ensures
            result.data.id == id,
            result.data.source is None,
            result.data.morph_targets@ == Seq::<MorphTarget>::empty(),
            result.data.vertices == vertices,
            result.data.indices == indices,
    {
        Mesh {
            data: Arc::new(
                MeshData { id, source: None, morph_targets: Vec::new(), vertices, indices },
            ),
        }
    }

    /// A mesh out of its parts.
    pub fn from_data(data: MeshData) -> (result: Self)
        ensures
            *result.data == data,
    {
        Mesh { data: Arc::new(data) }
    }

    /// The mesh comes from no file.
    pub open spec fn made_here(&self) -> bool {
        self.data.source is None
    }

    pub fn id(&self) -> (result: u128)
        ensures
            result == self.data.id,
    {
        self.data.id
    }

    pub fn morph_target_count(&self) -> (result: usize)
        ensures
            result == self.data.morph_targets@.len(),
    {
        self.data.morph_targets.len()
    }

    /// How far the mesh is pulled towards each target by default.
    pub open spec fn default_weights(&self) -> Seq<Real> {
        Seq::new(
            self.data.morph_targets@.len(),
            |i: int| self.data.morph_targets@[i].default_weight,
        )
    }

    /// A copy of the default weights.
    pub fn morph_weights(&self) -> (result: Vec<Real>)
        ensures
            result@ == self.default_weights(),
    {
        let mut result: Vec<Real> = Vec::new();
        let mut i: usize = 0;
        while i < self.data.morph_targets.len()
            invariant
                i <= self.data.morph_targets@.len(),
                result@ == self.default_weights().take(i as int),
            decreases self.data.morph_targets@.len() - i,
        {
            result.push(self.data.morph_targets[i].default_weight);
            i += 1;
            assert(result@ =~= self.default_weights().take(i as int));
        }
        assert(result@ =~= self.default_weights());
        result
    }

    /// The first target of that name.
    pub open spec fn target_named(&self, name: Seq<char>, at: int) -> bool {
        &&& 0 <= at < self.data.morph_targets@.len()
        &&& self.data.morph_targets@[at].name@ == name
        &&& forall|j: int| 0 <= j < at ==> (#[trigger] self.data.morph_targets@[j]).name@ != name
    }

    /// The number of the first morph target of that name.
    pub fn find_morph_target(&self, name: &str) -> (result: Option<usize>)
        ensures
            match result {
                Some(at) => self.target_named(name@, at as int),
                None => forall|j: int|
                    0 <= j < self.data.morph_targets@.len() ==> (
                    #[trigger] self.data.morph_targets@[j]).name@ != name@,
            },
    {
        let wanted = name.to_owned();
        let mut i: usize = 0;
        while i < self.data.morph_targets.len()
            invariant
                i <= self.data.morph_targets@.len(),
                wanted@ == name@,
                forall|j: int|
                    0 <= j < i ==> (#[trigger] self.data.morph_targets@[j]).name@ != name@,
            decreases self.data.morph_targets@.len() - i,
        {
            if self.data.morph_targets[i].name == wanted {
                return Some(i);
            }
            i += 1;
        }
        None
    }
}

/// How a material lies over what is behind it.
#[derive(Debug, Clone, Copy, PartialEq, Eq, Hash, Structural)]
pub enum BlendMode {
    Opaque,
    Alpha,
    Additive,
}

/// A material: its identity, which of its revisions this is, and what it is drawn with.
#[derive(Debug, Clone, Copy, PartialEq, Eq, Hash, Structural)]
pub struct Material {
    pub id: u128,
    pub revision: u64,
    /// Names the properties.
    pub properties: u64,
    pub blend_mode: BlendMode,
}

impl Material {
    /// Materials with equal keys are saved as one.
    pub open spec fn key(self) -> (u128, u64) {
        (self.id, self.revision)
    }

    pub fn set_blend_mode(&mut self, blend_mode: BlendMode)
        ensures
            *final(self) == (Material { blend_mode, ..*old(self) }),
    {
        self.blend_mode = blend_mode;
    }
}

} // verus!
