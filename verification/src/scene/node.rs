//! Nodes of a scene.

use crate::numbers::{Aabb, Mat4, Real, Transform, Vec3};
use crate::pool::Handle;
use crate::scene::audio::SoundSource;
use crate::scene::components::{Camera, Light, ParticleSystem, Spatial, Terrain};
use crate::scene::lod::Lod;
use crate::scene::mesh::{Material, Mesh};
use crate::scene::physics::{Collider, Joint, RigidBody};
use crate::scene::ragdoll::Ragdoll;
use crate::scene::script::ScriptSlot;
use crate::scene::skin::{AnimationPlayer, Skin};
use crate::tree::Links;
use vstd::prelude::*;

verus! {

/// A node of a scene.
///
/// `parent` and `children` are kept by the scene; the three `global_` fields hold what its last
/// update worked out.
#[derive(Debug)]
pub struct Node {
    pub name: String,
    /// Relative to the parent.
    pub transform: Transform,
    /// An invisible node hides its whole subtree.
    pub visible: bool,
    /// Whether decals stick to it.
    pub receives_decals: bool,
    /// The layers of light that reach it.
    pub light_mask: u32,
    pub mesh: Option<Mesh>,
    pub material: Option<Material>,
    pub camera: Option<Camera>,
    pub light: Option<Light>,
    pub particles: Option<ParticleSystem>,
    pub skin: Option<Skin>,
    pub animator: Option<AnimationPlayer>,
    /// How far the mesh is pulled towards each of its morph targets.
    pub morph_weights: Vec<Real>,
    pub rigid_body: Option<RigidBody>,
    pub collider: Option<Collider>,
    pub joint: Option<Joint>,
    pub ragdoll: Option<Ragdoll>,
    pub terrain: Option<Terrain>,
    pub sound: Option<SoundSource>,
    pub script: Option<ScriptSlot>,
    /// Which of the children are shown, by distance.
    pub lod: Option<Lod>,
    pub parent: Handle,
    pub children: Vec<Handle>,
    pub global_transform: Mat4,
    /// The node and all its ancestors are visible.
    pub global_visible: bool,
    pub global_aabb: Aabb,
}

impl Node {
    /// Its place in the tree.
    pub open spec fn links(self) -> Links {
        Links { parent: self.parent, children: self.children@ }
    }

    /// A node with a name and nothing else.
    pub open spec fn bare(self, name: Seq<char>) -> bool {
        &&& self.name@ == name
        &&& self.transform == Transform::identity()
        &&& self.visible
        &&& self.receives_decals
        &&& self.light_mask == u32::MAX
        &&& self.mesh is None
        &&& self.material is None
        &&& self.camera is None
        &&& self.light is None
        &&& self.particles is None
        &&& self.skin is None
        &&& self.animator is None
        &&& self.morph_weights@ == Seq::<Real>::empty()
        &&& self.rigid_body is None
        &&& self.collider is None
        &&& self.joint is None
        &&& self.ragdoll is None
        &&& self.terrain is None
        &&& self.sound is None
        &&& self.script is None
        &&& self.lod is None
        &&& self.parent == Handle::none()
        &&& self.children@ == Seq::<Handle>::empty()
        &&& self.global_transform == Mat4::identity()
        &&& self.global_visible
        &&& self.global_aabb == Aabb::empty()
    }

    /// Nothing but a name, a transform, a mesh with its weights and a material.
    pub open spec fn unadorned(self) -> bool {
        &&& self.visible
        &&& self.receives_decals
        &&& self.light_mask == u32::MAX
        &&& self.camera is None
        &&& self.light is None
        &&& self.particles is None
        &&& self.skin is None
        &&& self.animator is None
        &&& self.rigid_body is None
        &&& self.collider is None
        &&& self.joint is None
        &&& self.ragdoll is None
        &&& self.terrain is None
        &&& self.sound is None
        &&& self.script is None
        &&& self.lod is None
        &&& self.parent == Handle::none()
        &&& self.children@ == Seq::<Handle>::empty()
        &&& self.global_transform == Mat4::identity()
        &&& self.global_visible
        &&& self.global_aabb == Aabb::empty()
    }

    /// A node with a name and nothing else.
    pub fn new(name: &str) -> (result: Self)
        ensures
            result.bare(name@),
    {
        Node {
            name: name.to_owned(),
            transform: Transform::identity(),
            visible: true,
            receives_decals: true,
            light_mask: u32::MAX,
            mesh: None,
            material: None,
            camera: None,
            light: None,
            particles: None,
            skin: None,
            animator: None,
            morph_weights: Vec::new(),
            rigid_body: None,
            collider: None,
            joint: None,
            ragdoll: None,
            terrain: None,
            sound: None,
            script: None,
            lod: None,
            parent: Handle::none(),
            children: Vec::new(),
            global_transform: Mat4::identity(),
            global_visible: true,
            global_aabb: Aabb::empty(),
        }
    }

    /// `before` with another mesh, at its default weights.
    pub open spec fn remeshed(self, before: Node, mesh: Mesh) -> bool {
        &&& self.morph_weights@ == mesh.default_weights()
        &&& self == (Node { mesh: Some(mesh), morph_weights: self.morph_weights, ..before })
    }

    pub fn with_mesh(self, mesh: Mesh) -> (result: Self)
        ensures
            result.remeshed(self, mesh),
    {
        let morph_weights = mesh.morph_weights();
        Node { mesh: Some(mesh), morph_weights, ..self }
    }

    pub fn with_material(self, material: Material) -> (result: Self)
        ensures
            result == (Node { material: Some(material), ..self }),
    {
        Node { material: Some(material), ..self }
    }

    pub fn with_lod(self, lod: Lod) -> (result: Self)
        ensures
            result == (Node { lod: Some(lod), ..self }),
    {
        Node { lod: Some(lod), ..self }
    }

    pub fn lod(&self) -> (result: Option<&Lod>)
        ensures
            match result {
                Some(lod) => self.lod == Some(*lod),
                None => self.lod is None,
            },
    {
        match &self.lod {
            Some(lod) => Some(lod),
            None => None,
        }
    }

    pub fn with_light(self, light: Light) -> (result: Self)
        ensures
            result == (Node { light: Some(light), ..self }),
    {
        Node { light: Some(light), ..self }
    }

    pub fn with_light_mask(self, mask: u32) -> (result: Self)
        ensures
            result == (Node { light_mask: mask, ..self }),
    {
        Node { light_mask: mask, ..self }
    }

    pub fn with_camera(self, camera: Camera) -> (result: Self)
        ensures
            result == (Node { camera: Some(camera), ..self }),
    {
        Node { camera: Some(camera), ..self }
    }

    pub fn with_particles(self, particles: ParticleSystem) -> (result: Self)
        ensures
            result == (Node { particles: Some(particles), ..self }),
    {
        Node { particles: Some(particles), ..self }
    }

    pub fn with_skin(self, skin: Skin) -> (result: Self)
        ensures
            result == (Node { skin: Some(skin), ..self }),
    {
        Node { skin: Some(skin), ..self }
    }

    pub fn with_animator(self, animator: AnimationPlayer) -> (result: Self)
        ensures
            result == (Node { animator: Some(animator), ..self }),
    {
        Node { animator: Some(animator), ..self }
    }

    pub fn with_rigid_body(self, body: RigidBody) -> (result: Self)
        ensures
            result == (Node { rigid_body: Some(body), ..self }),
    {
        Node { rigid_body: Some(body), ..self }
    }

    pub fn with_collider(self, collider: Collider) -> (result: Self)
        ensures
            result == (Node { collider: Some(collider), ..self }),
    {
        Node { collider: Some(collider), ..self }
    }

    pub fn with_joint(self, joint: Joint) -> (result: Self)
        ensures
            result == (Node { joint: Some(joint), ..self }),
    {
        Node { joint: Some(joint), ..self }
    }

    pub fn with_sound(self, sound: SoundSource) -> (result: Self)
        ensures
            result == (Node { sound: Some(sound), ..self }),
    {
        Node { sound: Some(sound), ..self }
    }

    /// Makes the node's sound come from the node's place; a node without a sound stays as it is.
    pub fn with_sound_spatial(self, spatial: Spatial) -> (result: Self)
        ensures
            result == match self.sound {
                Some(sound) => Node {
                    sound: Some(SoundSource { spatial: Some(spatial), ..sound }),
                    ..self
                },
                None => self,
            },
    {
        match self.sound {
            Some(sound) => Node {
                sound: Some(SoundSource { spatial: Some(spatial), ..sound }),
                ..self
            },
            None => self,
        }
    }

    /// Hangs a script on the node.
    pub fn with_script(self, path: &str) -> (result: Self)
        ensures
            result.script matches Some(slot) && slot.path@ == path@ && slot.enabled && !slot.live()
                && !slot.failed && slot.state@ == Seq::<char>::empty(),
            result == (Node { script: result.script, ..self }),
    {
        Node { script: Some(ScriptSlot::new(path)), ..self }
    }

    pub fn with_terrain(self, terrain: Terrain) -> (result: Self)
        ensures
            result == (Node { terrain: Some(terrain), ..self }),
    {
        Node { terrain: Some(terrain), ..self }
    }

    pub fn with_ragdoll(self, ragdoll: Ragdoll) -> (result: Self)
        ensures
            result == (Node { ragdoll: Some(ragdoll), ..self }),
    {
        Node { ragdoll: Some(ragdoll), ..self }
    }

    pub fn with_transform(self, transform: Transform) -> (result: Self)
        ensures
            result == (Node { transform, ..self }),
    {
        Node { transform, ..self }
    }

    pub fn with_position(self, position: Vec3) -> (result: Self)
        ensures
            result == (Node { transform: Transform { position, ..self.transform }, ..self }),
    {
        Node { transform: Transform { position, ..self.transform }, ..self }
    }

    pub fn with_scale(self, scale: Vec3) -> (result: Self)
        ensures
            result == (Node { transform: Transform { scale, ..self.transform }, ..self }),
    {
        Node { transform: Transform { scale, ..self.transform }, ..self }
    }

    /// Replaces the mesh; the weights go back to the new mesh's defaults.
    pub fn set_mesh(&mut self, mesh: Mesh)
        ensures
            final(self).remeshed(*old(self), mesh),
    {
        self.morph_weights = mesh.morph_weights();
        self.mesh = Some(mesh);
    }

    pub fn set_material(&mut self, material: Material)
        ensures
            *final(self) == (Node { material: Some(material), ..*old(self) }),
    {
        self.material = Some(material);
    }

    pub fn set_light(&mut self, light: Light)
        ensures
            *final(self) == (Node { light: Some(light), ..*old(self) }),
    {
        self.light = Some(light);
    }

    pub fn set_camera(&mut self, camera: Camera)
        ensures
            *final(self) == (Node { camera: Some(camera), ..*old(self) }),
    {
        self.camera = Some(camera);
    }

    pub fn set_collider(&mut self, collider: Collider)
        ensures
            *final(self) == (Node { collider: Some(collider), ..*old(self) }),
    {
        self.collider = Some(collider);
    }

    pub fn set_ragdoll(&mut self, ragdoll: Ragdoll)
        ensures
            *final(self) == (Node { ragdoll: Some(ragdoll), ..*old(self) }),
    {
        self.ragdoll = Some(ragdoll);
    }

    pub fn set_terrain(&mut self, terrain: Terrain)
        ensures
            *final(self) == (Node { terrain: Some(terrain), ..*old(self) }),
    {
        self.terrain = Some(terrain);
    }

    pub fn set_sound(&mut self, sound: SoundSource)
        ensures
            *final(self) == (Node { sound: Some(sound), ..*old(self) }),
    {
        self.sound = Some(sound);
    }

    pub fn set_script(&mut self, slot: ScriptSlot)
        ensures
            *final(self) == (Node { script: Some(slot), ..*old(self) }),
    {
        self.script = Some(slot);
    }

    /// `before` with one morph weight changed; a number that there is not changes nothing.
    pub open spec fn reweighted(self, before: Node, index: int, weight: Real) -> bool {
        &&& self == (Node { morph_weights: self.morph_weights, ..before })
        &&& self.morph_weights@ == if 0 <= index < before.morph_weights@.len() {
            before.morph_weights@.update(index, weight)
        } else {
            before.morph_weights@
        }
    }

    /// Pulls the mesh towards one of its morph targets. Weights outside of 0 to 1 exaggerate.
    pub fn set_morph_weight(&mut self, index: usize, weight: Real)
        ensures
            final(self).reweighted(*old(self), index as int, weight),
    {
        if index < self.morph_weights.len() {
            self.morph_weights.set(index, weight);
        }
    }

    /// The same by name. Says whether there is a target of that name.
    pub fn set_morph_weight_by_name(&mut self, name: &str, weight: Real) -> (result: bool)
        ensures
            result <==> (old(self).mesh matches Some(mesh) && exists|at: int|
                mesh.target_named(name@, at)),
            !result ==> *final(self) == *old(self),
            result ==> (old(self).mesh matches Some(mesh) && exists|at: int|
                mesh.target_named(name@, at) && final(self).reweighted(*old(self), at, weight)),
    {
        match self.find_morph_target(name) {
            Some(at) => {
                self.set_morph_weight(at, weight);
                assert(old(self).mesh->0.target_named(name@, at as int));
                true
            },
            None => false,
        }
    }

    /// The number of the mesh's first morph target of that name.
    pub fn find_morph_target(&self, name: &str) -> (result: Option<usize>)
        ensures
            match result {
                Some(at) => self.mesh matches Some(mesh) && mesh.target_named(name@, at as int),
                None => self.mesh matches Some(mesh) ==> forall|at: int|
                    !mesh.target_named(name@, at),
            },
    {
        match &self.mesh {
            Some(mesh) => mesh.find_morph_target(name),
            None => None,
        }
    }

    pub fn parent(&self) -> (result: Handle)
        ensures
            result == self.parent,
    {
        self.parent
    }

    pub fn children(&self) -> (result: &Vec<Handle>)
        ensures
            *result == self.children,
    {
        &self.children
    }

    pub fn mesh(&self) -> (result: Option<&Mesh>)
        ensures
            result is Some <==> self.mesh is Some,
            result matches Some(mesh) ==> Some(*mesh) == self.mesh,
    {
        self.mesh.as_ref()
    }

    pub fn material(&self) -> (result: Option<&Material>)
        ensures
            result is Some <==> self.material is Some,
            result matches Some(material) ==> Some(*material) == self.material,
    {
        self.material.as_ref()
    }

    pub fn skin(&self) -> (result: Option<&Skin>)
        ensures
            result is Some <==> self.skin is Some,
            result matches Some(skin) ==> Some(*skin) == self.skin,
    {
        self.skin.as_ref()
    }

    pub fn script(&self) -> (result: Option<&ScriptSlot>)
        ensures
            result is Some <==> self.script is Some,
            result matches Some(slot) ==> Some(*slot) == self.script,
    {
        self.script.as_ref()
    }

    pub fn morph_weights(&self) -> (result: &Vec<Real>)
        ensures
            *result == self.morph_weights,
    {
        &self.morph_weights
    }

    pub fn global_transform(&self) -> (result: Mat4)
        ensures
            result == self.global_transform,
    {
        self.global_transform
    }

    pub fn global_aabb(&self) -> (result: Aabb)
        ensures
            result == self.global_aabb,
    {
        self.global_aabb
    }

    pub fn camera(&self) -> (result: Option<&Camera>)
        ensures
            result is Some <==> self.camera is Some,
            result matches Some(it) ==> self.camera == Some(*it),
    {
        self.camera.as_ref()
    }

    pub fn light(&self) -> (result: Option<&Light>)
        ensures
            result is Some <==> self.light is Some,
            result matches Some(it) ==> self.light == Some(*it),
    {
        self.light.as_ref()
    }

    pub fn particles(&self) -> (result: Option<&ParticleSystem>)
        ensures
            result is Some <==> self.particles is Some,
            result matches Some(it) ==> self.particles == Some(*it),
    {
        self.particles.as_ref()
    }

    pub fn animator(&self) -> (result: Option<&AnimationPlayer>)
        ensures
            result is Some <==> self.animator is Some,
            result matches Some(it) ==> self.animator == Some(*it),
    {
        self.animator.as_ref()
    }

    pub fn rigid_body(&self) -> (result: Option<&RigidBody>)
        ensures
            result is Some <==> self.rigid_body is Some,
            result matches Some(it) ==> self.rigid_body == Some(*it),
    {
        self.rigid_body.as_ref()
    }

    pub fn collider(&self) -> (result: Option<&Collider>)
        ensures
            result is Some <==> self.collider is Some,
            result matches Some(it) ==> self.collider == Some(*it),
    {
        self.collider.as_ref()
    }

    pub fn joint(&self) -> (result: Option<&Joint>)
        ensures
            result is Some <==> self.joint is Some,
            result matches Some(it) ==> self.joint == Some(*it),
    {
        self.joint.as_ref()
    }

    pub fn ragdoll(&self) -> (result: Option<&Ragdoll>)
        ensures
            result is Some <==> self.ragdoll is Some,
            result matches Some(it) ==> self.ragdoll == Some(*it),
    {
        self.ragdoll.as_ref()
    }

    pub fn terrain(&self) -> (result: Option<&Terrain>)
        ensures
            result is Some <==> self.terrain is Some,
            result matches Some(it) ==> self.terrain == Some(*it),
    {
        self.terrain.as_ref()
    }

    pub fn sound(&self) -> (result: Option<&SoundSource>)
        ensures
            result is Some <==> self.sound is Some,
            result matches Some(it) ==> self.sound == Some(*it),
    {
        self.sound.as_ref()
    }

    pub fn mesh_mut(&mut self) -> (result: Option<&mut Mesh>)
        ensures
            match result {
                Some(it) => {
                    &&& old(self).mesh == Some(*it)
                    &&& *final(self) == (Node { mesh: Some(*final(it)), ..*old(self) })
                },
                None => old(self).mesh is None && *final(self) == *old(self),
            },
    {
        match &mut self.mesh {
            Some(it) => Some(it),
            None => None,
        }
    }

    pub fn material_mut(&mut self) -> (result: Option<&mut Material>)
        ensures
            match result {
                Some(it) => {
                    &&& old(self).material == Some(*it)
                    &&& *final(self) == (Node { material: Some(*final(it)), ..*old(self) })
                },
                None => old(self).material is None && *final(self) == *old(self),
            },
    {
        match &mut self.material {
            Some(it) => Some(it),
            None => None,
        }
    }

    pub fn skin_mut(&mut self) -> (result: Option<&mut Skin>)
        ensures
            match result {
                Some(it) => {
                    &&& old(self).skin == Some(*it)
                    &&& *final(self) == (Node { skin: Some(*final(it)), ..*old(self) })
                },
                None => old(self).skin is None && *final(self) == *old(self),
            },
    {
        match &mut self.skin {
            Some(it) => Some(it),
            None => None,
        }
    }

    pub fn script_mut(&mut self) -> (result: Option<&mut ScriptSlot>)
        ensures
            match result {
                Some(it) => {
                    &&& old(self).script == Some(*it)
                    &&& *final(self) == (Node { script: Some(*final(it)), ..*old(self) })
                },
                None => old(self).script is None && *final(self) == *old(self),
            },
    {
        match &mut self.script {
            Some(it) => Some(it),
            None => None,
        }
    }

    pub fn camera_mut(&mut self) -> (result: Option<&mut Camera>)
        ensures
            match result {
                Some(it) => {
                    &&& old(self).camera == Some(*it)
                    &&& *final(self) == (Node { camera: Some(*final(it)), ..*old(self) })
                },
                None => old(self).camera is None && *final(self) == *old(self),
            },
    {
        match &mut self.camera {
            Some(it) => Some(it),
            None => None,
        }
    }

    pub fn light_mut(&mut self) -> (result: Option<&mut Light>)
        ensures
            match result {
                Some(it) => {
                    &&& old(self).light == Some(*it)
                    &&& *final(self) == (Node { light: Some(*final(it)), ..*old(self) })
                },
                None => old(self).light is None && *final(self) == *old(self),
            },
    {
        match &mut self.light {
            Some(it) => Some(it),
            None => None,
        }
    }

    pub fn particles_mut(&mut self) -> (result: Option<&mut ParticleSystem>)
        ensures
            match result {
                Some(it) => {
                    &&& old(self).particles == Some(*it)
                    &&& *final(self) == (Node { particles: Some(*final(it)), ..*old(self) })
                },
                None => old(self).particles is None && *final(self) == *old(self),
            },
    {
        match &mut self.particles {
            Some(it) => Some(it),
            None => None,
        }
    }

    pub fn animator_mut(&mut self) -> (result: Option<&mut AnimationPlayer>)
        ensures
            match result {
                Some(it) => {
                    &&& old(self).animator == Some(*it)
                    &&& *final(self) == (Node { animator: Some(*final(it)), ..*old(self) })
                },
                None => old(self).animator is None && *final(self) == *old(self),
            },
    {
        match &mut self.animator {
            Some(it) => Some(it),
            None => None,
        }
    }

    pub fn rigid_body_mut(&mut self) -> (result: Option<&mut RigidBody>)
        ensures
            match result {
                Some(it) => {
                    &&& old(self).rigid_body == Some(*it)
                    &&& *final(self) == (Node { rigid_body: Some(*final(it)), ..*old(self) })
                },
                None => old(self).rigid_body is None && *final(self) == *old(self),
            },
    {
        match &mut self.rigid_body {
            Some(it) => Some(it),
            None => None,
        }
    }

    pub fn collider_mut(&mut self) -> (result: Option<&mut Collider>)
        ensures
            match result {
                Some(it) => {
                    &&& old(self).collider == Some(*it)
                    &&& *final(self) == (Node { collider: Some(*final(it)), ..*old(self) })
                },
                None => old(self).collider is None && *final(self) == *old(self),
            },
    {
        match &mut self.collider {
            Some(it) => Some(it),
            None => None,
        }
    }

    pub fn joint_mut(&mut self) -> (result: Option<&mut Joint>)
        ensures
            match result {
                Some(it) => {
                    &&& old(self).joint == Some(*it)
                    &&& *final(self) == (Node { joint: Some(*final(it)), ..*old(self) })
                },
                None => old(self).joint is None && *final(self) == *old(self),
            },
    {
        match &mut self.joint {
            Some(it) => Some(it),
            None => None,
        }
    }

    pub fn ragdoll_mut(&mut self) -> (result: Option<&mut Ragdoll>)
        ensures
            match result {
                Some(it) => {
                    &&& old(self).ragdoll == Some(*it)
                    &&& *final(self) == (Node { ragdoll: Some(*final(it)), ..*old(self) })
                },
                None => old(self).ragdoll is None && *final(self) == *old(self),
            },
    {
        match &mut self.ragdoll {
            Some(it) => Some(it),
            None => None,
        }
    }

    pub fn terrain_mut(&mut self) -> (result: Option<&mut Terrain>)
        ensures
            match result {
                Some(it) => {
                    &&& old(self).terrain == Some(*it)
                    &&& *final(self) == (Node { terrain: Some(*final(it)), ..*old(self) })
                },
                None => old(self).terrain is None && *final(self) == *old(self),
            },
    {
        match &mut self.terrain {
            Some(it) => Some(it),
            None => None,
        }
    }

    pub fn sound_mut(&mut self) -> (result: Option<&mut SoundSource>)
        ensures
            match result {
                Some(it) => {
                    &&& old(self).sound == Some(*it)
                    &&& *final(self) == (Node { sound: Some(*final(it)), ..*old(self) })
                },
                None => old(self).sound is None && *final(self) == *old(self),
            },
    {
        match &mut self.sound {
            Some(it) => Some(it),
            None => None,
        }
    }

    pub fn lod_mut(&mut self) -> (result: Option<&mut Lod>)
        ensures
            match result {
                Some(it) => {
                    &&& old(self).lod == Some(*it)
                    &&& *final(self) == (Node { lod: Some(*final(it)), ..*old(self) })
                },
                None => old(self).lod is None && *final(self) == *old(self),
            },
    {
        match &mut self.lod {
            Some(it) => Some(it),
            None => None,
        }
    }

    /// The weights, to be changed in place.
    pub fn morph_weights_mut(&mut self) -> (result: &mut Vec<Real>)
        ensures
            *result == old(self).morph_weights,
            *final(self) == (Node { morph_weights: *final(result), ..*old(self) }),
    {
        &mut self.morph_weights
    }

    /// Where the node is in the world, as of the last update.
    pub fn global_position(&self) -> (result: Vec3)
        ensures
            result == self.global_transform.w_axis.truncate(),
    {
        self.global_transform.w_axis.truncate()
    }
}

impl Default for Node {
    /// A node called `Node`.
    fn default() -> (result: Self)
        ensures
            result.bare("Node"@),
    {
        Node::new("Node")
    }
}

} // verus!
