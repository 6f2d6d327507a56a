//! What a scene is asked for by those who draw it.

use crate::numbers::{Aabb, Mat4, Quat, Real, Transform, Vec3};
use crate::pool::{Handle, Pool};
use crate::scene::components::{Camera, Light, ParticleSystem};
use crate::scene::debug::Gizmos;
use crate::scene::graph::{Environment, Scene, SpriteInstance};
use crate::scene::mesh::{Material, Mesh};
use crate::scene::node::Node;
use vstd::prelude::*;

verus! {

/// One mesh to be drawn.
#[derive(Debug)]
pub struct RenderItem<'a> {
    pub mesh: &'a Mesh,
    pub material: Option<Material>,
    /// Into the world. A skinned mesh is put there by its joints.
    pub transform: Mat4,
    pub aabb: Aabb,
    pub skin: Option<&'a Vec<Mat4>>,
    pub morph_weights: &'a Vec<Real>,
}

/// One particle system to be drawn.
#[derive(Debug, Clone, Copy)]
pub struct ParticleItem {
    pub system: ParticleSystem,
    pub transform: Mat4,
    pub aabb: Aabb,
}

impl<'a> RenderItem<'a> {
    /// What is to be drawn for a node with a mesh.
    pub open spec fn shows(self, node: Node) -> bool {
        &&& *self.mesh == node.mesh->0
        &&& self.material == node.material
        &&& self.transform == if node.skin is Some {
            Mat4::identity()
        } else {
            node.global_transform
        }
        &&& self.aabb == node.global_aabb
        &&& match (self.skin, node.skin) {
            (Some(matrices), Some(skin)) => *matrices == skin.matrices,
            (None, None) => true,
            _ => false,
        }
        &&& *self.morph_weights == node.morph_weights
    }
}

/// The first member of a list that will do.
pub open spec fn first_such(list: Seq<Handle>, keep: spec_fn(Handle) -> bool) -> Option<Handle>
    decreases list.len(),
{
    if list.len() == 0 {
        None
    } else if keep(list[0]) {
        Some(list[0])
    } else {
        first_such(list.drop_first(), keep)
    }
}

/// The members of a list that will do, in its order.
pub open spec fn all_such(list: Seq<Handle>, keep: spec_fn(Handle) -> bool) -> Seq<Handle>
    decreases list.len(),
{
    if list.len() == 0 {
        Seq::empty()
    } else {
        let front = all_such(list.drop_last(), keep);
        if keep(list.last()) {
            front.push(list.last())
        } else {
            front
        }
    }
}

/// Those of a list that will do are members of it that will do, each once if it was there once.
pub proof fn lemma_all_such(list: Seq<Handle>, keep: spec_fn(Handle) -> bool)
    ensures
        forall|x: Handle| #[trigger]
            all_such(list, keep).contains(x) <==> list.contains(x) && keep(x),
        list.no_duplicates() ==> all_such(list, keep).no_duplicates(),
    decreases list.len(),
{
    if list.len() > 0 {
        let front = list.drop_last();
        let last = list.last();
        let before = all_such(front, keep);
        let now = all_such(list, keep);
        lemma_all_such(front, keep);
        assert forall|x: Handle| #[trigger] now.contains(x) <==> list.contains(x) && keep(x) by {
            if list.contains(x) {
                let i = choose|i: int| 0 <= i < list.len() && list[i] == x;
                if i < front.len() {
                    assert(front[i] == x);
                }
            }
            if front.contains(x) {
                let i = choose|i: int| 0 <= i < front.len() && front[i] == x;
                assert(list[i] == x);
            }
            if before.contains(x) {
                let i = choose|i: int| 0 <= i < before.len() && before[i] == x;
                assert(now[i] == x);
            }
            if now.contains(x) {
                let i = choose|i: int| 0 <= i < now.len() && now[i] == x;
                if i < before.len() {
                    assert(before[i] == x);
                }
            }
            assert(list[list.len() - 1] == last);
            if keep(last) {
                assert(now[now.len() - 1] == last);
            }
        }
        if list.no_duplicates() {
            assert(front.no_duplicates());
            assert(!before.contains(last)) by {
                if front.contains(last) {
                    let i = choose|i: int| 0 <= i < front.len() && front[i] == last;
                    assert(list[i] == list[list.len() - 1]);
                }
            }
            assert forall|i: int, j: int| 0 <= i < j < now.len() implies now[i] != now[j] by {
                assert(before[i] == now[i]);
                assert(before.contains(before[i]));
                if j < before.len() {
                    assert(before[j] == now[j]);
                }
            }
        }
    }
}

/// The first that will do is the first of those that will do.
pub proof fn lemma_first_of_all(list: Seq<Handle>, keep: spec_fn(Handle) -> bool)
    ensures
        first_such(list, keep) == if all_such(list, keep).len() == 0 {
            None
        } else {
            Some(all_such(list, keep)[0])
        },
    decreases list.len(),
{
    if list.len() > 0 {
        let front = list.drop_last();
        lemma_first_of_all(front, keep);
        lemma_first_behind(front, list.last(), keep);
        assert(front.push(list.last()) =~= list);
    }
}

proof fn lemma_first_behind(list: Seq<Handle>, last: Handle, keep: spec_fn(Handle) -> bool)
    ensures
        first_such(list.push(last), keep) == match first_such(list, keep) {
            Some(h) => Some(h),
            None => if keep(last) {
                Some(last)
            } else {
                None
            },
        },
    decreases list.len(),
{
    reveal_with_fuel(first_such, 2);
    if list.len() > 0 {
        lemma_first_behind(list.drop_first(), last, keep);
        assert(list.push(last).drop_first() =~= list.drop_first().push(last));
    } else {
        assert(list.push(last).drop_first() =~= Seq::<Handle>::empty());
    }
}

fn skinned_transform(node: &Node) -> (result: Mat4)
    ensures
        result == if node.skin is Some {
            Mat4::identity()
        } else {
            node.global_transform
        },
{
    if node.skin.is_some() {
        Mat4::identity()
    } else {
        node.global_transform
    }
}

/// A light that is on, and where it stands, as told for a node.
pub open spec fn light_told(nodes: Map<Handle, Node>, h: Handle, told: (Light, Mat4)) -> bool {
    Some(told.0) == nodes[h].light && told.1 == nodes[h].global_transform
}

/// A camera, and where it stands, as told for a node.
pub open spec fn camera_told(nodes: Map<Handle, Node>, h: Handle, told: (Mat4, Camera)) -> bool {
    Some(told.1) == nodes[h].camera && told.0 == nodes[h].global_transform
}

impl Scene {
    /// A node whose camera is on.
    pub open spec fn filming(&self) -> spec_fn(Handle) -> bool {
        |h: Handle|
            self.nodes@.contains_key(h) && self.nodes@[h].global_visible && (
            self.nodes@[h].camera matches Some(camera) && camera.enabled)
    }

    /// A node whose light is on.
    pub open spec fn lit(&self) -> spec_fn(Handle) -> bool {
        |h: Handle|
            self.nodes@.contains_key(h) && self.nodes@[h].global_visible && (
            self.nodes@[h].light matches Some(light) && light.enabled)
    }

    /// A node with a mesh.
    pub open spec fn meshed(&self) -> spec_fn(Handle) -> bool {
        |h: Handle| self.nodes@.contains_key(h) && self.nodes@[h].mesh is Some
    }

    /// A node with a mesh that is shown.
    pub open spec fn drawn(&self) -> spec_fn(Handle) -> bool {
        |h: Handle|
            self.nodes@.contains_key(h) && self.nodes@[h].mesh is Some
                && self.nodes@[h].global_visible
    }

    /// A node with a particle system that is shown.
    pub open spec fn emitting(&self) -> spec_fn(Handle) -> bool {
        |h: Handle|
            self.nodes@.contains_key(h) && self.nodes@[h].particles is Some
                && self.nodes@[h].global_visible
    }

    /// The first camera that is on.
    pub fn active_camera_node(&self) -> (result: Option<Handle>)
        ensures
            result == first_such(self.index.cameras@, self.filming()),
    {
        let ghost list = self.index.cameras@;
        let ghost keep = self.filming();
        let mut i: usize = 0;
        assert(list.skip(0) =~= list);
        while i < self.index.cameras.len()
            invariant
                list == self.index.cameras@,
                keep == self.filming(),
                i <= list.len(),
                first_such(list, keep) == first_such(list.skip(i as int), keep),
            decreases list.len() - i,
        {
            let h = self.index.cameras[i];
            proof {
                assert(list.skip(i as int)[0] == list[i as int]);
                assert(list.skip(i as int).drop_first() =~= list.skip(i + 1));
            }
            if let Some(node) = self.nodes.try_borrow(h) {
                if let Some(camera) = &node.camera {
                    if camera.enabled && node.global_visible {
                        return Some(h);
                    }
                }
            }
            i += 1;
        }
        None
    }

    /// The first camera that is on, and where it stands.
    pub fn active_camera(&self) -> (result: Option<(Mat4, Camera)>)
        ensures
            result matches Some(told) ==> first_such(self.index.cameras@, self.filming()) is Some
                && camera_told(
                self.nodes@,
                first_such(self.index.cameras@, self.filming())->0,
                told,
            ),
            result == match first_such(self.index.cameras@, self.filming()) {
                Some(h) => Some((self.nodes@[h].global_transform, self.nodes@[h].camera->0)),
                None => None,
            },
    {
        match self.active_camera_node() {
            Some(h) => {
                proof {
                    lemma_such_is_kept(self.index.cameras@, self.filming());
                }
                let node = self.nodes.borrow(h);
                match node.camera {
                    Some(camera) => Some((node.global_transform, camera)),
                    None => None,
                }
            },
            None => None,
        }
    }

    /// The lights that are on, and where they stand.
    pub fn visible_lights(&self) -> (result: Vec<(Light, Mat4)>)
        ensures
            forall|i: int|
                0 <= i < result@.len() ==> light_told(
                    self.nodes@,
                    all_such(self.index.lights@, self.lit())[i],
                    #[trigger] result@[i],
                ),
            ({
                let list = all_such(self.index.lights@, self.lit());
                &&& result@.len() == list.len()
                &&& forall|i: int|
                    0 <= i < list.len() ==> #[trigger] result@[i] == (
                        self.nodes@[list[i]].light->0,
                        self.nodes@[list[i]].global_transform,
                    )
            }),
    {
        let ghost list = self.index.lights@;
        let ghost keep = self.lit();
        let mut result: Vec<(Light, Mat4)> = Vec::new();
        let mut i: usize = 0;
        while i < self.index.lights.len()
            invariant
                list == self.index.lights@,
                keep == self.lit(),
                i <= list.len(),
                result@.len() == all_such(list.take(i as int), keep).len(),
                forall|j: int|
                    0 <= j < result@.len() ==> #[trigger] result@[j] == (
                        self.nodes@[all_such(list.take(i as int), keep)[j]].light->0,
                        self.nodes@[all_such(list.take(i as int), keep)[j]].global_transform,
                    ),
            decreases list.len() - i,
        {
            let h = self.index.lights[i];
            assert(list.take(i + 1).drop_last() =~= list.take(i as int));
            if let Some(node) = self.nodes.try_borrow(h) {
                if let Some(light) = &node.light {
                    if light.enabled && node.global_visible {
                        result.push((*light, node.global_transform));
                    }
                }
            }
            i += 1;
        }
        assert(list.take(i as int) =~= list);
        proof {
            lemma_all_such(list, keep);
            assert forall|j: int| 0 <= j < result@.len() implies light_told(
                self.nodes@,
                all_such(list, keep)[j],
                #[trigger] result@[j],
            ) by {
                assert(all_such(list, keep).contains(all_such(list, keep)[j]));
            }
        }
        result
    }

    /// The first light that is on and casts shadows, and where it stands.
    pub fn shadow_caster(&self) -> (result: Option<(Light, Mat4)>)
        ensures
            result == match first_such(
                self.index.lights@,
                |h: Handle| (self.lit())(h) && self.nodes@[h].light->0.cast_shadows,
            ) {
                Some(h) => Some((self.nodes@[h].light->0, self.nodes@[h].global_transform)),
                None => None,
            },
    {
        let ghost list = self.index.lights@;
        let ghost keep = |h: Handle| (self.lit())(h) && self.nodes@[h].light->0.cast_shadows;
        let mut i: usize = 0;
        assert(list.skip(0) =~= list);
        while i < self.index.lights.len()
            invariant
                list == self.index.lights@,
                keep == (|h: Handle| (self.lit())(h) && self.nodes@[h].light->0.cast_shadows),
                i <= list.len(),
                first_such(list, keep) == first_such(list.skip(i as int), keep),
            decreases list.len() - i,
        {
            let h = self.index.lights[i];
            proof {
                assert(list.skip(i as int)[0] == list[i as int]);
                assert(list.skip(i as int).drop_first() =~= list.skip(i + 1));
            }
            if let Some(node) = self.nodes.try_borrow(h) {
                if let Some(light) = &node.light {
                    if light.enabled && node.global_visible && light.cast_shadows {
                        return Some((*light, node.global_transform));
                    }
                }
            }
            i += 1;
        }
        None
    }

    /// What is to be drawn for a node, if it is there and has a mesh.
    pub fn render_item(&self, handle: Handle) -> (result: Option<RenderItem<'_>>)
        ensures
            result is Some <==> (self.meshed())(handle),
            result matches Some(item) ==> item.shows(self.nodes@[handle]),
    {
        let node = match self.nodes.try_borrow(handle) {
            Some(node) => node,
            None => {
                return None;
            },
        };
        match &node.mesh {
            Some(mesh) => {
                let skin = match &node.skin {
                    Some(skin) => Some(&skin.matrices),
                    None => None,
                };
                Some(
                    RenderItem {
                        mesh,
                        material: node.material,
                        transform: skinned_transform(node),
                        aabb: node.global_aabb,
                        skin,
                        morph_weights: &node.morph_weights,
                    },
                )
            },
            None => None,
        }
    }

    /// All meshes that are shown, in the order of their nodes' slots.
    pub fn visible_meshes(&self) -> (result: Vec<RenderItem<'_>>)
        requires
            self.wf(),
        ensures
            ({
                let list = all_such(self.nodes.order(), self.drawn());
                &&& result@.len() == list.len()
                &&& forall|i: int|
                    0 <= i < list.len() ==> (#[trigger] result@[i]).shows(self.nodes@[list[i]])
            }),
    {
        let handles = self.nodes.handles();
        let ghost list = handles@;
        let ghost keep = self.drawn();
        let mut result: Vec<RenderItem<'_>> = Vec::new();
        let mut i: usize = 0;
        while i < handles.len()
            invariant
                list == handles@,
                keep == self.drawn(),
                i <= list.len(),
                result@.len() == all_such(list.take(i as int), keep).len(),
                forall|j: int|
                    0 <= j < result@.len() ==> (#[trigger] result@[j]).shows(
                        self.nodes@[all_such(list.take(i as int), keep)[j]],
                    ),
            decreases list.len() - i,
        {
            let h = handles[i];
            assert(list.take(i + 1).drop_last() =~= list.take(i as int));
            if let Some(node) = self.nodes.try_borrow(h) {
                if node.global_visible {
                    if let Some(item) = self.render_item(h) {
                        result.push(item);
                    }
                }
            }
            i += 1;
        }
        assert(list.take(i as int) =~= list);
        result
    }

    /// The drawables with these numbers, which the search structure found to be in sight.
    pub fn cull(&self, found: &Vec<usize>) -> (result: Vec<RenderItem<'_>>)
        requires
            forall|i: int| 0 <= i < found@.len() ==> #[trigger] found@[i] < self.culling.handles@.len(),
        ensures
            ({
                let list = all_such(
                    found@.map_values(|at: usize| self.culling.handles@[at as int]),
                    self.meshed(),
                );
                &&& result@.len() == list.len()
                &&& forall|i: int|
                    0 <= i < list.len() ==> (#[trigger] result@[i]).shows(self.nodes@[list[i]])
            }),
    {
        let ghost list = found@.map_values(|at: usize| self.culling.handles@[at as int]);
        let ghost keep = self.meshed();
        let mut result: Vec<RenderItem<'_>> = Vec::new();
        let mut i: usize = 0;
        while i < found.len()
            invariant
                list == found@.map_values(|at: usize| self.culling.handles@[at as int]),
                forall|i: int|
                    0 <= i < found@.len() ==> #[trigger] found@[i] < self.culling.handles@.len(),
                keep == self.meshed(),
                i <= list.len(),
                result@.len() == all_such(list.take(i as int), keep).len(),
                forall|j: int|
                    0 <= j < result@.len() ==> (#[trigger] result@[j]).shows(
                        self.nodes@[all_such(list.take(i as int), keep)[j]],
                    ),
            decreases list.len() - i,
        {
            assert(found@[i as int] < self.culling.handles@.len());
            let h = self.culling.handles[found[i]];
            assert(list.take(i + 1).drop_last() =~= list.take(i as int));
            if let Some(item) = self.render_item(h) {
                result.push(item);
            }
            i += 1;
        }
        assert(list.take(i as int) =~= list);
        result
    }

    /// The nodes whose particles move on this frame: those of hidden nodes stand still.
    pub fn ticking_particles(&self) -> (result: Vec<Handle>)
        ensures
            result@ == all_such(self.index.particles@, self.emitting()),
    {
        let ghost list = self.index.particles@;
        let ghost keep = self.emitting();
        let mut result: Vec<Handle> = Vec::new();
        let mut i: usize = 0;
        while i < self.index.particles.len()
            invariant
                list == self.index.particles@,
                keep == self.emitting(),
                i <= list.len(),
                result@ == all_such(list.take(i as int), keep),
            decreases list.len() - i,
        {
            let h = self.index.particles[i];
            assert(list.take(i + 1).drop_last() =~= list.take(i as int));
            if let Some(node) = self.nodes.try_borrow(h) {
                if node.global_visible && node.particles.is_some() {
                    result.push(h);
                }
            }
            i += 1;
        }
        assert(list.take(i as int) =~= list);
        result
    }

    /// What is to be drawn of the first `n` particle systems.
    pub open spec fn particle_items(&self, bounds: Seq<Aabb>, seen: Seq<bool>, n: nat) -> Seq<
        ParticleItem,
    >
        decreases n,
    {
        if n == 0 {
            Seq::empty()
        } else {
            let front = self.particle_items(bounds, seen, (n - 1) as nat);
            let h = self.index.particles@[n - 1];
            if (self.emitting())(h) && self.nodes@[h].particles->0.alive != 0 && seen[n - 1] {
                front.push(
                    ParticleItem {
                        system: self.nodes@[h].particles->0,
                        transform: self.nodes@[h].global_transform,
                        aabb: bounds[n - 1],
                    },
                )
            } else {
                front
            }
        }
    }

    /// The particle systems that are shown, have particles and are in sight. `bounds` holds the box
    /// of each indexed system, and `seen` whether that box is in sight.
    pub fn visible_particles(&self, bounds: &Vec<Aabb>, seen: &Vec<bool>) -> (result: Vec<
        ParticleItem,
    >)
        requires
            bounds@.len() == self.index.particles@.len(),
            seen@.len() == self.index.particles@.len(),
        ensures
            result@ == self.particle_items(bounds@, seen@, self.index.particles@.len()),
    {
        let mut result: Vec<ParticleItem> = Vec::new();
        let mut i: usize = 0;
        while i < self.index.particles.len()
            invariant
                bounds@.len() == self.index.particles@.len(),
                seen@.len() == self.index.particles@.len(),
                i <= bounds@.len(),
                result@ == self.particle_items(bounds@, seen@, i as nat),
            decreases bounds@.len() - i,
        {
            if let Some(node) = self.nodes.try_borrow(self.index.particles[i]) {
                if let Some(system) = &node.particles {
                    if node.global_visible && system.alive != 0 && seen[i] {
                        result.push(
                            ParticleItem {
                                system: *system,
                                transform: node.global_transform,
                                aabb: bounds[i],
                            },
                        );
                    }
                }
            }
            i += 1;
        }
        result
    }

    /// The smallest box around all drawables; empty if there are none.
    pub fn visible_bounds(&self) -> (result: Aabb)
        ensures
            result == all_around(self.culling.bounds@),
    {
        let mut result = Aabb::empty();
        let mut i: usize = 0;
        assert(self.culling.bounds@.take(0) =~= Seq::<Aabb>::empty());
        while i < self.culling.bounds.len()
            invariant
                i <= self.culling.bounds@.len(),
                result == all_around(self.culling.bounds@.take(i as int)),
            decreases self.culling.bounds@.len() - i,
        {
            proof {
                let list = self.culling.bounds@;
                assert(list.take(i + 1).drop_last() =~= list.take(i as int));
            }
            result = result.join(&self.culling.bounds[i]);
            i += 1;
        }
        assert(self.culling.bounds@.take(i as int) =~= self.culling.bounds@);
        result
    }

    /// Where the three nodes of a chain of two bones stand, if all of them are there.
    pub fn two_bone_places(&self, root: Handle, mid: Handle, end: Handle) -> (result: Option<
        (Vec3, Vec3, Vec3),
    >)
        ensures
            result == if self.nodes@.contains_key(root) && self.nodes@.contains_key(mid)
                && self.nodes@.contains_key(end) {
                Some(
                    (
                        self.nodes@[root].global_transform.w_axis.truncate(),
                        self.nodes@[mid].global_transform.w_axis.truncate(),
                        self.nodes@[end].global_transform.w_axis.truncate(),
                    ),
                )
            } else {
                None
            },
    {
        let a = self.nodes.try_borrow(root)?;
        let b = self.nodes.try_borrow(mid)?;
        let c = self.nodes.try_borrow(end)?;
        Some(
            (
                a.global_transform.w_axis.truncate(),
                b.global_transform.w_axis.truncate(),
                c.global_transform.w_axis.truncate(),
            ),
        )
    }

    /// The transform of the node above a node, as of the last update; a node without one has the
    /// identity above it.
    pub fn parent_matrix(&self, handle: Handle) -> (result: Option<Mat4>)
        ensures
            result == if self.nodes@.contains_key(handle) {
                Some(
                    if self.nodes@.contains_key(self.nodes@[handle].parent) {
                        self.nodes@[self.nodes@[handle].parent].global_transform
                    } else {
                        Mat4::identity()
                    },
                )
            } else {
                None
            },
    {
        let node = self.nodes.try_borrow(handle)?;
        match self.nodes.try_borrow(node.parent) {
            Some(parent) => Some(parent.global_transform),
            None => Some(Mat4::identity()),
        }
    }

    /// Gives a node another rotation in its parent's space.
    pub fn turn_node(&mut self, handle: Handle, rotation: Quat)
        requires
            old(self).wf(),
        ensures
            final(self).wf(),
            final(self).tree() == old(self).tree(),
            final(self).nodes@ == if old(self).nodes@.contains_key(handle) {
                let node = old(self).nodes@[handle];
                old(self).nodes@.insert(
                    handle,
                    Node { transform: Transform { rotation, ..node.transform }, ..node },
                )
            } else {
                old(self).nodes@
            },
            final(self).index == old(self).index,
            final(self).physics == old(self).physics,
            final(self).rest_same(old(self)),
    {
        if let Some(node) = self.try_get_mut(handle) {
            node.transform.rotation = rotation;
        }
    }

    /// Puts a particle system back on its node after it moved on.
    pub fn store_particles(&mut self, handle: Handle, system: ParticleSystem)
        requires
            old(self).wf(),
        ensures
            final(self).wf(),
            final(self).tree() == old(self).tree(),
            final(self).nodes@ == if old(self).nodes@.contains_key(handle) {
                old(self).nodes@.insert(
                    handle,
                    Node { particles: Some(system), ..old(self).nodes@[handle] },
                )
            } else {
                old(self).nodes@
            },
            final(self).index == old(self).index,
            final(self).physics == old(self).physics,
            final(self).rest_same(old(self)),
    {
        if let Some(node) = self.try_get_mut(handle) {
            node.particles = Some(system);
        }
    }

    /// From where the grounds are looked at: the active camera of the last update, or the origin.
    pub fn terrain_eye(&self) -> (result: Vec3)
        ensures
            result == match first_such(self.index.cameras@, self.filming()) {
                Some(h) => self.nodes@[h].global_transform.w_axis.truncate(),
                None => Vec3::zero(),
            },
    {
        match self.active_camera() {
            Some((to_world, _)) => to_world.w_axis.truncate(),
            None => Vec3::zero(),
        }
    }

    /// The grounds that the last update found.
    pub fn terrain_nodes(&self) -> (result: &[Handle])
        ensures
            result@ == self.index.terrains@,
    {
        self.index.terrains.as_slice()
    }

    /// How many drawables the last update found.
    pub fn drawable_count(&self) -> (result: usize)
        ensures
            result == self.culling.handles@.len(),
    {
        self.culling.handles.len()
    }

    pub fn environment(&self) -> (result: &Environment)
        ensures
            *result == self.environment,
    {
        &self.environment
    }

    pub fn environment_mut(&mut self) -> (result: &mut Environment)
        ensures
            *result == old(self).environment,
            *final(self) == (Scene { environment: *final(result), ..*old(self) }),
    {
        &mut self.environment
    }

    pub fn nodes(&self) -> (result: &Pool<Node>)
        ensures
            *result == self.nodes,
    {
        &self.nodes
    }

    pub fn script_nodes(&self) -> (result: &[Handle])
        ensures
            result@ == self.index.scripts@,
    {
        self.index.scripts.as_slice()
    }

    pub fn drawable_nodes(&self) -> (result: &[Handle])
        ensures
            result@ == self.index.drawables@,
    {
        self.index.drawables.as_slice()
    }

    pub fn light_nodes(&self) -> (result: &[Handle])
        ensures
            result@ == self.index.lights@,
    {
        self.index.lights.as_slice()
    }

    pub fn camera_nodes(&self) -> (result: &[Handle])
        ensures
            result@ == self.index.cameras@,
    {
        self.index.cameras.as_slice()
    }

    pub fn skinned_nodes(&self) -> (result: &[Handle])
        ensures
            result@ == self.index.skinned@,
    {
        self.index.skinned.as_slice()
    }

    pub fn sprites(&self) -> (result: &[SpriteInstance])
        ensures
            result@ == self.sprites@,
    {
        self.sprites.as_slice()
    }

    /// Adds a picture for this frame.
    pub fn push_sprite(&mut self, sprite: SpriteInstance)
        ensures
            final(self).sprites@ == old(self).sprites@.push(sprite),
            *final(self) == (Scene { sprites: final(self).sprites, ..*old(self) }),
    {
        self.sprites.push(sprite);
    }

    /// Forgets the pictures of the last frame.
    pub fn clear_sprites(&mut self)
        ensures
            final(self).sprites@ == Seq::<SpriteInstance>::empty(),
            *final(self) == (Scene { sprites: final(self).sprites, ..*old(self) }),
    {
        self.sprites.clear();
    }

    /// Makes a texture known that sprites may use. One that is known is not entered twice.
    pub fn register_sprite_texture(&mut self, texture: u128)
        ensures
            final(self).sprite_textures@ == if old(self).sprite_textures@.contains(texture) {
                old(self).sprite_textures@
            } else {
                old(self).sprite_textures@.push(texture)
            },
            *final(self) == (Scene { sprite_textures: final(self).sprite_textures, ..*old(self) }),
    {
        let mut i: usize = 0;
        while i < self.sprite_textures.len()
            invariant
                i <= self.sprite_textures@.len(),
                *self == *old(self),
                forall|j: int| 0 <= j < i ==> self.sprite_textures@[j] != texture,
            decreases self.sprite_textures@.len() - i,
        {
            if self.sprite_textures[i] == texture {
                assert(self.sprite_textures@[i as int] == texture);
                return;
            }
            i += 1;
        }
        self.sprite_textures.push(texture);
    }

    pub fn sprite_textures(&self) -> (result: &[u128])
        ensures
            result@ == self.sprite_textures@,
    {
        self.sprite_textures.as_slice()
    }

    /// Takes the environment's light from a picture. `sky` and `ground` are its mean colours, and
    /// `prefiltered` names its filtered levels.
    pub fn set_environment_hdr(&mut self, environment: Environment, prefiltered: u64)
        requires
            old(self).environment_version < u64::MAX,
        ensures
            final(self).environment_version == old(self).environment_version + 1,
            *final(self) == (Scene {
                environment,
                prefiltered_environment: Some(prefiltered),
                environment_version: final(self).environment_version,
                ..*old(self)
            }),
    {
        self.environment = environment;
        self.prefiltered_environment = Some(prefiltered);
        self.environment_version += 1;
    }

    pub fn prefiltered_environment(&self) -> (result: Option<u64>)
        ensures
            result == self.prefiltered_environment,
    {
        self.prefiltered_environment
    }

    /// How often the environment picture was changed.
    pub fn environment_version(&self) -> (result: u64)
        ensures
            result == self.environment_version,
    {
        self.environment_version
    }

    pub fn gizmos(&self) -> (result: &Gizmos)
        ensures
            *result == self.gizmos,
    {
        &self.gizmos
    }

    pub fn gizmos_mut(&mut self) -> (result: &mut Gizmos)
        ensures
            *result == old(self).gizmos,
            *final(self) == (Scene { gizmos: *final(result), ..*old(self) }),
    {
        &mut self.gizmos
    }
}

/// The smallest box around all boxes of a list.
pub open spec fn all_around(list: Seq<Aabb>) -> Aabb
    decreases list.len(),
{
    if list.len() == 0 {
        Aabb::empty()
    } else {
        all_around(list.drop_last()).joined(list.last())
    }
}

/// The box around all covers each, as far as they are made of numbers.
pub proof fn lemma_all_around_covers(list: Seq<Aabb>)
    requires
        forall|i: int| 0 <= i < list.len() ==> (#[trigger] list[i]).plain(),
    ensures
        all_around(list).plain(),
        forall|i: int| 0 <= i < list.len() ==> all_around(list).covers(#[trigger] list[i]),
    decreases list.len(),
{
    if list.len() > 0 {
        let front = list.drop_last();
        assert forall|i: int| 0 <= i < front.len() implies (#[trigger] front[i]).plain() by {
            assert(front[i] == list[i]);
        }
        lemma_all_around_covers(front);
        assert(list[list.len() - 1].plain());
        assert forall|i: int| 0 <= i < list.len() implies all_around(list).covers(
            #[trigger] list[i],
        ) by {
            if i < front.len() {
                assert(front[i] == list[i]);
                assert(all_around(front).covers(front[i]));
            }
        }
    }
}

/// What is found will do.
pub proof fn lemma_such_is_kept(list: Seq<Handle>, keep: spec_fn(Handle) -> bool)
    ensures
        first_such(list, keep) matches Some(h) ==> keep(h) && list.contains(h),
    decreases list.len(),
{
    if list.len() > 0 && !keep(list[0]) {
        lemma_such_is_kept(list.drop_first(), keep);
        if let Some(h) = first_such(list, keep) {
            let rest = list.drop_first();
            let i = choose|i: int| 0 <= i < rest.len() && rest[i] == h;
            assert(list[i + 1] == h);
        }
    }
}

/// Those of a list that will do come in the order of the list, and none is left out.
pub proof fn lemma_such_are_filtered(list: Seq<Handle>, keep: spec_fn(Handle) -> bool)
    ensures
        all_such(list, keep) == list.filter(keep),
    decreases list.len(),
{
    reveal(Seq::filter);
    if list.len() > 0 {
        lemma_such_are_filtered(list.drop_last(), keep);
    }
}

/// The first of a list that will do, if all before it will not.
proof fn lemma_first_such(list: Seq<Handle>, keep: spec_fn(Handle) -> bool, k: int)
    requires
        0 <= k <= list.len(),
        k < list.len() ==> keep(list[k]),
        forall|j: int| 0 <= j < k ==> !keep(#[trigger] list[j]),
    ensures
        first_such(list, keep) == if k < list.len() {
            Some(list[k])
        } else {
            None
        },
    decreases list.len(),
{
    if k > 0 {
        assert(!keep(list[0]));
        let rest = list.drop_first();
        if k < list.len() {
            assert(rest[k - 1] == list[k]);
        }
        assert forall|j: int| 0 <= j < k - 1 implies !keep(#[trigger] rest[j]) by {
            assert(rest[j] == list[j + 1]);
        }
        lemma_first_such(rest, keep, k - 1);
    }
}

/// A camera that can be looked through: its node is there and shown, and it is on.
pub open spec fn films(scene: &Scene, h: Handle) -> bool {
    &&& scene.nodes@.contains_key(h)
    &&& scene.nodes@[h].global_visible
    &&& scene.nodes@[h].camera is Some
    &&& scene.nodes@[h].camera->0.enabled
}

/// The scene is looked at through the first camera of the index that is on and shown.
pub proof fn lemma_first_camera_is_active(scene: &Scene, k: int)
    requires
        0 <= k <= scene.index.cameras@.len(),
        k < scene.index.cameras@.len() ==> films(scene, scene.index.cameras@[k]),
        forall|j: int| 0 <= j < k ==> !films(scene, #[trigger] scene.index.cameras@[j]),
    ensures
        first_such(scene.index.cameras@, scene.filming()) == if k < scene.index.cameras@.len() {
            Some(scene.index.cameras@[k])
        } else {
            None
        },
{
    lemma_first_such(scene.index.cameras@, scene.filming(), k);
}

/// What is lit, has a mesh, is drawn or emits particles: in each case the node is there, carries what
/// it takes, and, but for the mere mesh, is shown; a light must be on.
pub proof fn lemma_what_is_in_the_picture(scene: &Scene, h: Handle)
    ensures
        (scene.lit())(h) <==> scene.nodes@.contains_key(h) && scene.nodes@[h].global_visible
            && scene.nodes@[h].light is Some && scene.nodes@[h].light->0.enabled,
        (scene.meshed())(h) <==> scene.nodes@.contains_key(h) && scene.nodes@[h].mesh is Some,
        (scene.drawn())(h) <==> scene.nodes@.contains_key(h) && scene.nodes@[h].global_visible
            && scene.nodes@[h].mesh is Some,
        (scene.emitting())(h) <==> scene.nodes@.contains_key(h) && scene.nodes@[h].global_visible
            && scene.nodes@[h].particles is Some,
{
}

/// The lights, meshes and particle systems of the picture are those of the lists that are on and
/// shown, in the order of the lists.
pub proof fn lemma_picture_keeps_the_order(scene: &Scene, list: Seq<Handle>)
    ensures
        all_such(list, scene.lit()) == list.filter(
            |h: Handle|
                scene.nodes@.contains_key(h) && scene.nodes@[h].global_visible
                    && scene.nodes@[h].light is Some && scene.nodes@[h].light->0.enabled,
        ),
        all_such(list, scene.drawn()) == list.filter(
            |h: Handle|
                scene.nodes@.contains_key(h) && scene.nodes@[h].mesh is Some
                    && scene.nodes@[h].global_visible,
        ),
        all_such(list, scene.emitting()) == list.filter(
            |h: Handle|
                scene.nodes@.contains_key(h) && scene.nodes@[h].particles is Some
                    && scene.nodes@[h].global_visible,
        ),
        all_such(list, scene.meshed()) == list.filter(
            |h: Handle| scene.nodes@.contains_key(h) && scene.nodes@[h].mesh is Some,
        ),
    decreases list.len(),
{
    reveal(Seq::filter);
    if list.len() > 0 {
        lemma_picture_keeps_the_order(scene, list.drop_last());
    }
}

/// What is drawn of a node is its own mesh, material, weights and box, at its place; a skinned mesh
/// is put in place by its joints alone.
pub proof fn lemma_item_shows_its_node(item: RenderItem<'_>, node: Node)
    requires
        item.shows(node),
        node.mesh is Some,
    ensures
        Some(*item.mesh) == node.mesh,
        item.material == node.material,
        item.aabb.min == node.global_aabb.min,
        item.aabb.max == node.global_aabb.max,
        *item.morph_weights == node.morph_weights,
        node.skin is None ==> item.skin is None && item.transform == node.global_transform,
        node.skin is Some ==> item.skin is Some && *item.skin->0 == node.skin->0.matrices
            && item.transform == Mat4::identity(),
{
}

/// A particle system is in the picture: shown, with particles, and in sight.
pub open spec fn glows(scene: &Scene, seen: Seq<bool>, i: int) -> bool {
    let h = scene.index.particles@[i];
    &&& scene.nodes@.contains_key(h)
    &&& scene.nodes@[h].global_visible
    &&& scene.nodes@[h].particles is Some
    &&& scene.nodes@[h].particles->0.alive > 0
    &&& seen[i]
}

/// Item `k` is what is drawn of system `i`.
pub open spec fn pictures(scene: &Scene, bounds: Seq<Aabb>, item: ParticleItem, i: int) -> bool {
    let h = scene.index.particles@[i];
    &&& Some(item.system) == scene.nodes@[h].particles
    &&& item.transform == scene.nodes@[h].global_transform
    &&& item.aabb == bounds[i]
}

/// An item is what is drawn of one of the first `n` systems.
pub open spec fn pictured(
    scene: &Scene,
    bounds: Seq<Aabb>,
    seen: Seq<bool>,
    item: ParticleItem,
    n: nat,
) -> bool {
    exists|i: int|
        0 <= i < n && #[trigger] glows(scene, seen, i) && pictures(scene, bounds, item, i)
}

/// Exactly the particle systems that are shown, have particles and are in sight are drawn, each as it
/// is, where its node stands, with its own box.
pub proof fn lemma_particles_are_drawn(scene: &Scene, bounds: Seq<Aabb>, seen: Seq<bool>, n: nat)
    requires
        n <= scene.index.particles@.len(),
    ensures
        forall|i: int|
            0 <= i < n && #[trigger] glows(scene, seen, i) ==> exists|k: int|
                0 <= k < scene.particle_items(bounds, seen, n).len() && pictures(
                    scene,
                    bounds,
                    #[trigger] scene.particle_items(bounds, seen, n)[k],
                    i,
                ),
        forall|k: int|
            0 <= k < scene.particle_items(bounds, seen, n).len() ==> pictured(
                scene,
                bounds,
                seen,
                #[trigger] scene.particle_items(bounds, seen, n)[k],
                n,
            ),
    decreases n,
{
    if n > 0 {
        let front = scene.particle_items(bounds, seen, (n - 1) as nat);
        let all = scene.particle_items(bounds, seen, n);
        lemma_particles_are_drawn(scene, bounds, seen, (n - 1) as nat);
        assert forall|i: int| 0 <= i < n && #[trigger] glows(scene, seen, i) implies exists|k: int|
            0 <= k < all.len() && pictures(scene, bounds, #[trigger] all[k], i) by {
            if i < n - 1 {
                let k = choose|k: int|
                    0 <= k < front.len() && pictures(scene, bounds, #[trigger] front[k], i);
                assert(all[k] == front[k]);
            } else {
                assert(pictures(scene, bounds, all[all.len() - 1], i));
            }
        }
        assert forall|k: int| 0 <= k < all.len() implies pictured(
            scene,
            bounds,
            seen,
            #[trigger] all[k],
            n,
        ) by {
            if k < front.len() {
                assert(all[k] == front[k]);
                assert(pictured(scene, bounds, seen, front[k], (n - 1) as nat));
                let i = choose|i: int|
                    0 <= i < n - 1 && #[trigger] glows(scene, seen, i) && pictures(
                        scene,
                        bounds,
                        front[k],
                        i,
                    );
                assert(glows(scene, seen, i));
            } else {
                assert(glows(scene, seen, n - 1));
                assert(pictures(scene, bounds, all[k], n - 1));
            }
        }
    }
}

/// What is told of a light or a camera is the node's own, with the place where that node stands.
pub proof fn lemma_light_and_camera_are_their_nodes(
    nodes: Map<Handle, Node>,
    h: Handle,
    light: (Light, Mat4),
    camera: (Mat4, Camera),
)
    ensures
        light_told(nodes, h, light) && nodes[h].light is Some ==> {
            &&& light.0.kind == nodes[h].light->0.kind
            &&& light.0.color == nodes[h].light->0.color
            &&& light.0.intensity == nodes[h].light->0.intensity
            &&& light.0.mask == nodes[h].light->0.mask
            &&& light.0.cast_shadows == nodes[h].light->0.cast_shadows
            &&& light.1 == nodes[h].global_transform
        },
        camera_told(nodes, h, camera) && nodes[h].camera is Some ==> {
            &&& camera.1.field_of_view == nodes[h].camera->0.field_of_view
            &&& camera.1.near == nodes[h].camera->0.near
            &&& camera.1.far == nodes[h].camera->0.far
            &&& camera.1.orthographic == nodes[h].camera->0.orthographic
            &&& camera.0 == nodes[h].global_transform
        },
{
}

} // verus!
