//! Debug drawing.

use crate::numbers::{Aabb, Mat4, Real, Vec3};
use crate::pool::Handle;
use crate::scene::components::LightKind;
use crate::scene::graph;
use crate::scene::graph::Scene;
use crate::scene::node::Node;
use crate::scene::queries;
use vstd::prelude::*;

verus! {

/// Which debug overlays to draw.
#[derive(Debug, Clone, Copy, PartialEq, Eq, Structural)]
pub struct SceneDebugOptions {
    /// The boxes of the drawables.
    pub bounds: bool,
    /// The search structure for culling.
    pub bvh: bool,
    /// Joints and bones.
    pub skeletons: bool,
    /// The axes of each drawable.
    pub node_axes: bool,
    /// Lights, where they point and how far they reach.
    pub lights: bool,
    /// Cameras other than the active one.
    pub cameras: bool,
}

impl SceneDebugOptions {
    /// No overlay is on.
    pub open spec fn empty(self) -> bool {
        !self.bounds && !self.bvh && !self.skeletons && !self.node_axes && !self.lights
            && !self.cameras
    }

    /// Whether there is nothing to draw.
    pub fn is_empty(&self) -> (result: bool)
        ensures
            result == self.empty(),
    {
        !(self.bounds || self.bvh || self.skeletons || self.node_axes || self.lights
            || self.cameras)
    }
}

impl Default for SceneDebugOptions {
    /// Everything off.
    fn default() -> (result: Self)
        ensures
            result.empty(),
    {
        SceneDebugOptions {
            bounds: false,
            bvh: false,
            skeletons: false,
            node_axes: false,
            lights: false,
            cameras: false,
        }
    }
}

/// One thing to draw over the scene.
#[derive(Debug, Clone, Copy, PartialEq, Eq, Structural)]
pub enum Gizmo {
    /// The box of a drawable.
    Bounds(Aabb),
    /// A box of the search structure, `depth` levels down.
    Search { aabb: Aabb, depth: u32, leaf: bool },
    /// From a joint's parent to the joint, over everything else.
    Bone { from: Vec3, to: Vec3 },
    /// A joint, over everything else.
    JointPoint(Vec3),
    /// The three axes of a transform.
    Axes { transform: Mat4, size: Real },
    /// A light at a place; whoever draws works out where it points.
    Lamp { transform: Mat4, range: Option<Real> },
    /// A camera.
    Eye { transform: Mat4 },
    /// A line that the solver wants drawn.
    Solver(SolverLine),
}

/// A line that the solver wants drawn. Its colour is given by hue, saturation, lightness and
/// opacity.
#[derive(Debug, Clone, Copy, PartialEq, Eq, Structural)]
pub struct SolverLine {
    pub from: Vec3,
    pub to: Vec3,
    pub hue: Real,
    pub saturation: Real,
    pub lightness: Real,
    pub alpha: Real,
}

/// What is to be drawn over this frame. Nothing is collected while it is off.
#[derive(Debug)]
pub struct Gizmos {
    pub enabled: bool,
    pub items: Vec<Gizmo>,
}

impl Gizmos {
    /// Off, with nothing in it.
    pub fn new() -> (result: Self)
        ensures
            !result.enabled,
            result.items@ == Seq::<Gizmo>::empty(),
    {
        Gizmos { enabled: false, items: Vec::new() }
    }

    pub fn enabled(&self) -> (result: bool)
        ensures
            result == self.enabled,
    {
        self.enabled
    }

    pub fn set_enabled(&mut self, enabled: bool)
        ensures
            *final(self) == (Gizmos { enabled, ..*old(self) }),
    {
        self.enabled = enabled;
    }
}

/// A box of the search structure.
#[derive(Debug, Clone, Copy, PartialEq, Eq, Structural)]
pub struct SearchBox {
    pub aabb: Aabb,
    pub depth: u32,
    pub leaf: bool,
}

/// How long the axes of drawables are drawn.
#[verifier::allow_in_spec]
pub fn axes_size() -> Real
    returns
        (Real { bits: 0x3e80_0000 }),
{
    Real::from_bits(0x3e80_0000)
}

impl LightKind {
    /// How far the light reaches, if it does not reach everywhere.
    pub open spec fn reach(self) -> Option<Real> {
        match self {
            LightKind::Directional => None,
            LightKind::Point { range } => Some(range),
            LightKind::Spot { range, .. } => Some(range),
        }
    }

    /// The reach, if there is something to draw of it.
    pub open spec fn drawn_reach(self) -> Option<Real> {
        match self.reach() {
            Some(range) if Real::zero().less(range) && range.finite() => Some(range),
            _ => None,
        }
    }

    fn range_to_draw(&self) -> (result: Option<Real>)
        ensures
            result == self.drawn_reach(),
    {
        let range = match *self {
            LightKind::Directional => {
                return None;
            },
            LightKind::Point { range } => range,
            LightKind::Spot { range, .. } => range,
        };
        if Real::zero().is_less(range) && range.is_finite() {
            Some(range)
        } else {
            None
        }
    }
}

/// Where a node stands in the world.
pub open spec fn place(nodes: Map<Handle, Node>, h: Handle) -> Vec3 {
    nodes[h].global_transform.w_axis.truncate()
}

/// The boxes of the listed nodes.
pub open spec fn bounds_items(nodes: Map<Handle, Node>, list: Seq<Handle>) -> Seq<Gizmo>
    decreases list.len(),
{
    if list.len() == 0 {
        Seq::empty()
    } else {
        let front = bounds_items(nodes, list.drop_last());
        if nodes.contains_key(list.last()) {
            front.push(Gizmo::Bounds(nodes[list.last()].global_aabb))
        } else {
            front
        }
    }
}

/// The axes of the listed nodes.
pub open spec fn axes_items(nodes: Map<Handle, Node>, list: Seq<Handle>) -> Seq<Gizmo>
    decreases list.len(),
{
    if list.len() == 0 {
        Seq::empty()
    } else {
        let front = axes_items(nodes, list.drop_last());
        if nodes.contains_key(list.last()) {
            front.push(
                Gizmo::Axes {
                    transform: nodes[list.last()].global_transform,
                    size: axes_size(),
                },
            )
        } else {
            front
        }
    }
}

/// The lights of the listed nodes.
pub open spec fn lamp_items(nodes: Map<Handle, Node>, list: Seq<Handle>) -> Seq<Gizmo>
    decreases list.len(),
{
    if list.len() == 0 {
        Seq::empty()
    } else {
        let front = lamp_items(nodes, list.drop_last());
        let h = list.last();
        if nodes.contains_key(h) && nodes[h].light is Some {
            front.push(
                Gizmo::Lamp {
                    transform: nodes[h].global_transform,
                    range: nodes[h].light->0.kind.drawn_reach(),
                },
            )
        } else {
            front
        }
    }
}

/// The cameras of the listed nodes, but for the active one.
pub open spec fn eye_items(
    nodes: Map<Handle, Node>,
    list: Seq<Handle>,
    active: Option<Handle>,
) -> Seq<Gizmo>
    decreases list.len(),
{
    if list.len() == 0 {
        Seq::empty()
    } else {
        let front = eye_items(nodes, list.drop_last(), active);
        let h = list.last();
        if Some(h) != active && nodes.contains_key(h) && nodes[h].camera is Some {
            front.push(Gizmo::Eye { transform: nodes[h].global_transform })
        } else {
            front
        }
    }
}

/// The boxes of the search structure.
pub open spec fn search_items(boxes: Seq<SearchBox>) -> Seq<Gizmo> {
    boxes.map_values(
        |b: SearchBox| Gizmo::Search { aabb: b.aabb, depth: b.depth, leaf: b.leaf },
    )
}

/// Bones from parent to joint, for those of the listed joints whose parent belongs to the same
/// skin.
pub open spec fn bone_items(
    nodes: Map<Handle, Node>,
    skin: Seq<Handle>,
    list: Seq<Handle>,
) -> Seq<Gizmo>
    decreases list.len(),
{
    if list.len() == 0 {
        Seq::empty()
    } else {
        let front = bone_items(nodes, skin, list.drop_last());
        let h = list.last();
        if nodes.contains_key(h) && skin.contains(nodes[h].parent) && nodes.contains_key(
            nodes[h].parent,
        ) {
            front.push(Gizmo::Bone { from: place(nodes, nodes[h].parent), to: place(nodes, h) })
        } else {
            front
        }
    }
}

/// The listed joints.
pub open spec fn joint_items(nodes: Map<Handle, Node>, list: Seq<Handle>) -> Seq<Gizmo>
    decreases list.len(),
{
    if list.len() == 0 {
        Seq::empty()
    } else {
        let front = joint_items(nodes, list.drop_last());
        if nodes.contains_key(list.last()) {
            front.push(Gizmo::JointPoint(place(nodes, list.last())))
        } else {
            front
        }
    }
}

/// The joints of a node's skin.
pub open spec fn skin_joints(nodes: Map<Handle, Node>, h: Handle) -> Seq<Handle> {
    if nodes.contains_key(h) {
        match nodes[h].skin {
            Some(skin) => skin.joints@,
            None => Seq::empty(),
        }
    } else {
        Seq::empty()
    }
}

/// The bones of all listed skins.
pub open spec fn all_bones(nodes: Map<Handle, Node>, list: Seq<Handle>) -> Seq<Gizmo>
    decreases list.len(),
{
    if list.len() == 0 {
        Seq::empty()
    } else {
        let joints = skin_joints(nodes, list.last());
        all_bones(nodes, list.drop_last()) + bone_items(nodes, joints, joints)
    }
}

/// The joints of all listed skins.
pub open spec fn all_joints(nodes: Map<Handle, Node>, list: Seq<Handle>) -> Seq<Gizmo>
    decreases list.len(),
{
    if list.len() == 0 {
        Seq::empty()
    } else {
        all_joints(nodes, list.drop_last()) + joint_items(nodes, skin_joints(nodes, list.last()))
    }
}

/// What is on, or nothing.
pub open spec fn when(on: bool, items: Seq<Gizmo>) -> Seq<Gizmo> {
    if on {
        items
    } else {
        Seq::empty()
    }
}

impl Scene {
    /// What the overlays consist of, one after the other.
    pub open spec fn overlays(&self, options: SceneDebugOptions, boxes: Seq<SearchBox>) -> Seq<
        Gizmo,
    > {
        let nodes = self.nodes@;
        let index = self.index;
        when(options.bounds, bounds_items(nodes, index.drawables@)) + when(
            options.bvh,
            search_items(boxes),
        ) + when(
            options.skeletons,
            all_bones(nodes, index.skinned@) + all_joints(nodes, index.skinned@),
        ) + when(options.node_axes, axes_items(nodes, index.drawables@)) + when(
            options.lights,
            lamp_items(nodes, index.lights@),
        ) + when(
            options.cameras,
            eye_items(
                nodes,
                index.cameras@,
                queries::first_such(index.cameras@, self.filming()),
            ),
        )
    }

    /// Collects the overlays that are on. Nothing is collected while drawing is off. `boxes` holds
    /// the boxes of the search structure.
    pub fn debug_draw(&mut self, options: SceneDebugOptions, boxes: &Vec<SearchBox>)
        ensures
            final(self).gizmos.items@ == old(self).gizmos.items@ + when(
                old(self).gizmos.enabled,
                old(self).overlays(options, boxes@),
            ),
            final(self).gizmos.enabled == old(self).gizmos.enabled,
            *final(self) == (Scene { gizmos: final(self).gizmos, ..*old(self) }),
    {
        let ghost start = self.gizmos.items@;
        if !self.gizmos.enabled || options.is_empty() {
            proof {
                if self.gizmos.enabled {
                    assert(self.overlays(options, boxes@) =~= Seq::<Gizmo>::empty());
                }
                assert(start + Seq::<Gizmo>::empty() =~= start);
            }
            return;
        }
        let mut items: Vec<Gizmo> = Vec::new();
        if options.bounds {
            self.draw_bounds(&mut items);
        }
        let ghost a = items@;
        assert(a =~= when(options.bounds, bounds_items(self.nodes@, self.index.drawables@)));
        if options.bvh {
            Self::draw_bvh(boxes, &mut items);
        }
        let ghost b = items@;
        assert(b =~= a + when(options.bvh, search_items(boxes@)));
        if options.skeletons {
            self.draw_skeletons(&mut items);
        }
        let ghost c = items@;
        assert(c =~= b + when(
            options.skeletons,
            all_bones(self.nodes@, self.index.skinned@) + all_joints(
                self.nodes@,
                self.index.skinned@,
            ),
        ));
        if options.node_axes {
            self.draw_node_axes(&mut items);
        }
        let ghost d = items@;
        assert(d =~= c + when(
            options.node_axes,
            axes_items(self.nodes@, self.index.drawables@),
        ));
        if options.lights {
            self.draw_lights(&mut items);
        }
        let ghost e = items@;
        assert(e =~= d + when(options.lights, lamp_items(self.nodes@, self.index.lights@)));
        if options.cameras {
            self.draw_cameras(&mut items);
        }
        assert(items@ =~= self.overlays(options, boxes@));
        self.gizmos.items.append(&mut items);
    }

    /// Collects the lines that the solver wants drawn. Nothing is collected while drawing is off.
    pub fn debug_draw_physics(&mut self, lines: &Vec<SolverLine>)
        ensures
            final(self).gizmos.items@ == old(self).gizmos.items@ + when(
                old(self).gizmos.enabled,
                lines@.map_values(|line: SolverLine| Gizmo::Solver(line)),
            ),
            final(self).gizmos.enabled == old(self).gizmos.enabled,
            *final(self) == (Scene { gizmos: final(self).gizmos, ..*old(self) }),
    {
        let ghost start = self.gizmos.items@;
        let ghost drawn = lines@.map_values(|line: SolverLine| Gizmo::Solver(line));
        if !self.gizmos.enabled {
            assert(start + Seq::<Gizmo>::empty() =~= start);
            return;
        }
        let mut i: usize = 0;
        assert(start =~= start + drawn.take(0));
        while i < lines.len()
            invariant
                i <= lines@.len(),
                drawn == lines@.map_values(|line: SolverLine| Gizmo::Solver(line)),
                self.gizmos.items@ == start + drawn.take(i as int),
                self.gizmos.enabled == old(self).gizmos.enabled,
                *self == (Scene { gizmos: self.gizmos, ..*old(self) }),
            decreases lines@.len() - i,
        {
            self.gizmos.items.push(Gizmo::Solver(lines[i]));
            i += 1;
            assert(self.gizmos.items@ =~= start + drawn.take(i as int));
        }
        assert(drawn.take(i as int) =~= drawn);
    }

    fn draw_bounds(&self, items: &mut Vec<Gizmo>)
        ensures
            final(items)@ == old(items)@ + bounds_items(self.nodes@, self.index.drawables@),
    {
        let ghost start = items@;
        let ghost list = self.index.drawables@;
        let mut i: usize = 0;
        assert(items@ =~= start + bounds_items(self.nodes@, list.take(0)));
        while i < self.index.drawables.len()
            invariant
                list == self.index.drawables@,
                i <= list.len(),
                items@ == start + bounds_items(self.nodes@, list.take(i as int)),
            decreases list.len() - i,
        {
            assert(list.take(i + 1).drop_last() =~= list.take(i as int));
            if let Some(node) = self.nodes.try_borrow(self.index.drawables[i]) {
                items.push(Gizmo::Bounds(node.global_aabb));
            }
            i += 1;
            assert(items@ =~= start + bounds_items(self.nodes@, list.take(i as int)));
        }
        assert(list.take(i as int) =~= list);
    }

    fn draw_bvh(boxes: &Vec<SearchBox>, items: &mut Vec<Gizmo>)
        ensures
            final(items)@ == old(items)@ + search_items(boxes@),
    {
        let ghost start = items@;
        let mut i: usize = 0;
        assert(items@ =~= start + search_items(boxes@).take(0));
        while i < boxes.len()
            invariant
                i <= boxes@.len(),
                items@ == start + search_items(boxes@).take(i as int),
            decreases boxes@.len() - i,
        {
            let b = boxes[i];
            items.push(Gizmo::Search { aabb: b.aabb, depth: b.depth, leaf: b.leaf });
            i += 1;
            assert(items@ =~= start + search_items(boxes@).take(i as int));
        }
        assert(search_items(boxes@).take(i as int) =~= search_items(boxes@));
    }

    fn draw_skeletons(&self, items: &mut Vec<Gizmo>)
        ensures
            final(items)@ == old(items)@ + (all_bones(self.nodes@, self.index.skinned@)
                + all_joints(self.nodes@, self.index.skinned@)),
    {
        let ghost start = items@;
        let ghost list = self.index.skinned@;
        let mut points: Vec<Gizmo> = Vec::new();
        let mut i: usize = 0;
        assert(items@ =~= start + all_bones(self.nodes@, list.take(0)));
        while i < self.index.skinned.len()
            invariant
                list == self.index.skinned@,
                i <= list.len(),
                items@ == start + all_bones(self.nodes@, list.take(i as int)),
                points@ == all_joints(self.nodes@, list.take(i as int)),
            decreases list.len() - i,
        {
            let handle = self.index.skinned[i];
            let ghost bones = items@;
            let ghost before = points@;
            assert(list.take(i + 1).drop_last() =~= list.take(i as int));
            self.draw_skeleton(handle, items, &mut points);
            i += 1;
            proof {
                assert(items@ =~= start + all_bones(self.nodes@, list.take(i as int)));
                assert(points@ =~= all_joints(self.nodes@, list.take(i as int)));
            }
        }
        assert(list.take(i as int) =~= list);
        let ghost bones = items@;
        items.append(&mut points);
        assert(items@ =~= start + (all_bones(self.nodes@, list) + all_joints(self.nodes@, list)));
    }

    fn draw_skeleton(&self, handle: Handle, bones: &mut Vec<Gizmo>, points: &mut Vec<Gizmo>)
        ensures
            final(bones)@ == old(bones)@ + bone_items(
                self.nodes@,
                skin_joints(self.nodes@, handle),
                skin_joints(self.nodes@, handle),
            ),
            final(points)@ == old(points)@ + joint_items(
                self.nodes@,
                skin_joints(self.nodes@, handle),
            ),
    {
        let ghost first = bones@;
        let ghost second = points@;
        let ghost list = skin_joints(self.nodes@, handle);
        proof {
            assert(list.take(0) =~= Seq::<Handle>::empty());
            assert(first + Seq::<Gizmo>::empty() =~= first);
            assert(second + Seq::<Gizmo>::empty() =~= second);
        }
        let skin = match self.nodes.try_borrow(handle) {
            Some(node) => match &node.skin {
                Some(skin) => skin,
                None => {
                    return;
                },
            },
            None => {
                return;
            },
        };
        let mut i: usize = 0;
        while i < skin.joints.len()
            invariant
                list == skin.joints@,
                i <= list.len(),
                bones@ == first + bone_items(self.nodes@, list, list.take(i as int)),
                points@ == second + joint_items(self.nodes@, list.take(i as int)),
            decreases list.len() - i,
        {
            let joint = skin.joints[i];
            assert(list.take(i + 1).drop_last() =~= list.take(i as int));
            if let Some(node) = self.nodes.try_borrow(joint) {
                let position = node.global_transform.w_axis.truncate();
                points.push(Gizmo::JointPoint(position));
                if graph::lists(&skin.joints, node.parent) {
                    if let Some(parent) = self.nodes.try_borrow(node.parent) {
                        bones.push(
                            Gizmo::Bone {
                                from: parent.global_transform.w_axis.truncate(),
                                to: position,
                            },
                        );
                    }
                }
            }
            i += 1;
            proof {
                assert(bones@ =~= first + bone_items(self.nodes@, list, list.take(i as int)));
                assert(points@ =~= second + joint_items(self.nodes@, list.take(i as int)));
            }
        }
        assert(list.take(i as int) =~= list);
    }

    fn draw_node_axes(&self, items: &mut Vec<Gizmo>)
        ensures
            final(items)@ == old(items)@ + axes_items(self.nodes@, self.index.drawables@),
    {
        let ghost start = items@;
        let ghost list = self.index.drawables@;
        let mut i: usize = 0;
        assert(items@ =~= start + axes_items(self.nodes@, list.take(0)));
        while i < self.index.drawables.len()
            invariant
                list == self.index.drawables@,
                i <= list.len(),
                items@ == start + axes_items(self.nodes@, list.take(i as int)),
            decreases list.len() - i,
        {
            assert(list.take(i + 1).drop_last() =~= list.take(i as int));
            if let Some(node) = self.nodes.try_borrow(self.index.drawables[i]) {
                items.push(Gizmo::Axes { transform: node.global_transform, size: axes_size() });
            }
            i += 1;
            assert(items@ =~= start + axes_items(self.nodes@, list.take(i as int)));
        }
        assert(list.take(i as int) =~= list);
    }

    fn draw_lights(&self, items: &mut Vec<Gizmo>)
        ensures
            final(items)@ == old(items)@ + lamp_items(self.nodes@, self.index.lights@),
    {
        let ghost start = items@;
        let ghost list = self.index.lights@;
        let mut i: usize = 0;
        assert(items@ =~= start + lamp_items(self.nodes@, list.take(0)));
        while i < self.index.lights.len()
            invariant
                list == self.index.lights@,
                i <= list.len(),
                items@ == start + lamp_items(self.nodes@, list.take(i as int)),
            decreases list.len() - i,
        {
            assert(list.take(i + 1).drop_last() =~= list.take(i as int));
            if let Some(node) = self.nodes.try_borrow(self.index.lights[i]) {
                if let Some(light) = &node.light {
                    items.push(
                        Gizmo::Lamp {
                            transform: node.global_transform,
                            range: light.kind.range_to_draw(),
                        },
                    );
                }
            }
            i += 1;
            assert(items@ =~= start + lamp_items(self.nodes@, list.take(i as int)));
        }
        assert(list.take(i as int) =~= list);
    }

    fn draw_cameras(&self, items: &mut Vec<Gizmo>)
        ensures
            final(items)@ == old(items)@ + eye_items(
                self.nodes@,
                self.index.cameras@,
                queries::first_such(self.index.cameras@, self.filming()),
            ),
    {
        let active = self.active_camera_node();
        let ghost start = items@;
        let ghost list = self.index.cameras@;
        let mut i: usize = 0;
        assert(items@ =~= start + eye_items(self.nodes@, list.take(0), active));
        while i < self.index.cameras.len()
            invariant
                list == self.index.cameras@,
                i <= list.len(),
                items@ == start + eye_items(self.nodes@, list.take(i as int), active),
            decreases list.len() - i,
        {
            let handle = self.index.cameras[i];
            assert(list.take(i + 1).drop_last() =~= list.take(i as int));
            if active != Some(handle) {
                if let Some(node) = self.nodes.try_borrow(handle) {
                    if node.camera.is_some() {
                        items.push(Gizmo::Eye { transform: node.global_transform });
                    }
                }
            }
            i += 1;
            assert(items@ =~= start + eye_items(self.nodes@, list.take(i as int), active));
        }
        assert(list.take(i as int) =~= list);
    }
}

/// The box of every listed node that is there is drawn, in the order of the list.
pub proof fn lemma_boxes_are_drawn(nodes: Map<Handle, Node>, list: Seq<Handle>)
    ensures
        bounds_items(nodes, list) == list.filter(|h: Handle| nodes.contains_key(h)).map_values(
            |h: Handle| Gizmo::Bounds(nodes[h].global_aabb),
        ),
    decreases list.len(),
{
    reveal(Seq::filter);
    let keep = |h: Handle| nodes.contains_key(h);
    let item = |h: Handle| Gizmo::Bounds(nodes[h].global_aabb);
    if list.len() > 0 {
        lemma_boxes_are_drawn(nodes, list.drop_last());
        let front = list.drop_last().filter(keep);
        assert(front.push(list.last()).map_values(item) =~= front.map_values(item).push(
            item(list.last()),
        ));
        assert(list.filter(keep).map_values(item) == if keep(list.last()) {
            front.map_values(item).push(item(list.last()))
        } else {
            front.map_values(item)
        });
    } else {
        assert(list.filter(keep) =~= Seq::<Handle>::empty());
        assert(list.filter(keep).map_values(item) =~= Seq::<Gizmo>::empty());
    }
}

/// The axes of every listed node that is there are drawn where it stands, a quarter long, in the order
/// of the list.
pub proof fn lemma_axes_are_drawn(nodes: Map<Handle, Node>, list: Seq<Handle>)
    ensures
        axes_items(nodes, list) == list.filter(|h: Handle| nodes.contains_key(h)).map_values(
            |h: Handle| Gizmo::Axes { transform: nodes[h].global_transform, size: Real { bits: 0x3e80_0000 } },
        ),
    decreases list.len(),
{
    reveal(Seq::filter);
    let keep = |h: Handle| nodes.contains_key(h);
    let item = |h: Handle| Gizmo::Axes { transform: nodes[h].global_transform, size: Real { bits: 0x3e80_0000 } };
    if list.len() > 0 {
        lemma_axes_are_drawn(nodes, list.drop_last());
        let front = list.drop_last().filter(keep);
        assert(front.push(list.last()).map_values(item) =~= front.map_values(item).push(
            item(list.last()),
        ));
        assert(list.filter(keep).map_values(item) == if keep(list.last()) {
            front.map_values(item).push(item(list.last()))
        } else {
            front.map_values(item)
        });
    } else {
        assert(list.filter(keep) =~= Seq::<Handle>::empty());
        assert(list.filter(keep).map_values(item) =~= Seq::<Gizmo>::empty());
    }
}

/// Every joint that is there is drawn where it stands, in the order of the list.
pub proof fn lemma_joints_are_drawn(nodes: Map<Handle, Node>, list: Seq<Handle>)
    ensures
        joint_items(nodes, list) == list.filter(|h: Handle| nodes.contains_key(h)).map_values(
            |h: Handle| Gizmo::JointPoint(
                    Vec3 {
                        x: nodes[h].global_transform.w_axis.x,
                        y: nodes[h].global_transform.w_axis.y,
                        z: nodes[h].global_transform.w_axis.z,
                    },
                ),
        ),
    decreases list.len(),
{
    reveal(Seq::filter);
    let keep = |h: Handle| nodes.contains_key(h);
    let item = |h: Handle| Gizmo::JointPoint(
                    Vec3 {
                        x: nodes[h].global_transform.w_axis.x,
                        y: nodes[h].global_transform.w_axis.y,
                        z: nodes[h].global_transform.w_axis.z,
                    },
                );
    if list.len() > 0 {
        lemma_joints_are_drawn(nodes, list.drop_last());
        let front = list.drop_last().filter(keep);
        assert(front.push(list.last()).map_values(item) =~= front.map_values(item).push(
            item(list.last()),
        ));
        assert(list.filter(keep).map_values(item) == if keep(list.last()) {
            front.map_values(item).push(item(list.last()))
        } else {
            front.map_values(item)
        });
    } else {
        assert(list.filter(keep) =~= Seq::<Handle>::empty());
        assert(list.filter(keep).map_values(item) =~= Seq::<Gizmo>::empty());
    }
}

/// Every listed node with a light is drawn as a lamp where it stands, with its range.
pub proof fn lemma_lamps_are_drawn(nodes: Map<Handle, Node>, list: Seq<Handle>)
    ensures
        lamp_items(nodes, list) == list.filter(|h: Handle| nodes.contains_key(h) && nodes[h].light is Some).map_values(
            |h: Handle| Gizmo::Lamp {
                transform: nodes[h].global_transform,
                range: nodes[h].light->0.kind.drawn_reach(),
            },
        ),
    decreases list.len(),
{
    reveal(Seq::filter);
    let keep = |h: Handle| nodes.contains_key(h) && nodes[h].light is Some;
    let item = |h: Handle| Gizmo::Lamp {
                transform: nodes[h].global_transform,
                range: nodes[h].light->0.kind.drawn_reach(),
            };
    if list.len() > 0 {
        lemma_lamps_are_drawn(nodes, list.drop_last());
        let front = list.drop_last().filter(keep);
        assert(front.push(list.last()).map_values(item) =~= front.map_values(item).push(
            item(list.last()),
        ));
        assert(list.filter(keep).map_values(item) == if keep(list.last()) {
            front.map_values(item).push(item(list.last()))
        } else {
            front.map_values(item)
        });
    } else {
        assert(list.filter(keep) =~= Seq::<Handle>::empty());
        assert(list.filter(keep).map_values(item) =~= Seq::<Gizmo>::empty());
    }
}

/// Every listed node with a camera is drawn as an eye where it stands, but for the one that is looked
/// through.
pub proof fn lemma_eyes_are_drawn(nodes: Map<Handle, Node>, list: Seq<Handle>, active: Option<Handle>)
    ensures
        eye_items(nodes, list, active) == list.filter(|h: Handle| nodes.contains_key(h) && nodes[h].camera is Some && Some(h) != active).map_values(
            |h: Handle| Gizmo::Eye { transform: nodes[h].global_transform },
        ),
    decreases list.len(),
{
    reveal(Seq::filter);
    let keep = |h: Handle| nodes.contains_key(h) && nodes[h].camera is Some && Some(h) != active;
    let item = |h: Handle| Gizmo::Eye { transform: nodes[h].global_transform };
    if list.len() > 0 {
        lemma_eyes_are_drawn(nodes, list.drop_last(), active);
        let front = list.drop_last().filter(keep);
        assert(front.push(list.last()).map_values(item) =~= front.map_values(item).push(
            item(list.last()),
        ));
        assert(list.filter(keep).map_values(item) == if keep(list.last()) {
            front.map_values(item).push(item(list.last()))
        } else {
            front.map_values(item)
        });
    } else {
        assert(list.filter(keep) =~= Seq::<Handle>::empty());
        assert(list.filter(keep).map_values(item) =~= Seq::<Gizmo>::empty());
    }
}

/// A bone is drawn from a joint's parent to the joint, where both stand, if both are joints of the skin.
pub proof fn lemma_bones_are_drawn(nodes: Map<Handle, Node>, skin: Seq<Handle>, list: Seq<Handle>)
    ensures
        bone_items(nodes, skin, list) == list.filter(|h: Handle| nodes.contains_key(h) && nodes.contains_key(nodes[h].parent) && skin.contains(nodes[h].parent)).map_values(
            |h: Handle| Gizmo::Bone {
                from: nodes[nodes[h].parent].global_transform.w_axis.truncate(),
                to: nodes[h].global_transform.w_axis.truncate(),
            },
        ),
    decreases list.len(),
{
    reveal(Seq::filter);
    let keep = |h: Handle| nodes.contains_key(h) && nodes.contains_key(nodes[h].parent) && skin.contains(nodes[h].parent);
    let item = |h: Handle| Gizmo::Bone {
                from: nodes[nodes[h].parent].global_transform.w_axis.truncate(),
                to: nodes[h].global_transform.w_axis.truncate(),
            };
    if list.len() > 0 {
        lemma_bones_are_drawn(nodes, skin, list.drop_last());
        let front = list.drop_last().filter(keep);
        assert(front.push(list.last()).map_values(item) =~= front.map_values(item).push(
            item(list.last()),
        ));
        assert(list.filter(keep).map_values(item) == if keep(list.last()) {
            front.map_values(item).push(item(list.last()))
        } else {
            front.map_values(item)
        });
    } else {
        assert(list.filter(keep) =~= Seq::<Handle>::empty());
        assert(list.filter(keep).map_values(item) =~= Seq::<Gizmo>::empty());
    }
}

/// A light is drawn with its range if it has one that is a number above zero; light from one direction
/// has none.
pub proof fn lemma_range_is_drawn(kind: LightKind, range: Real)
    ensures
        kind == LightKind::Directional ==> kind.drawn_reach() is None,
        kind == (LightKind::Point { range }) || (kind matches LightKind::Spot { range: r, .. } && r
            == range) ==> {
            &&& range.finite() && Real::zero().less(range) ==> kind.drawn_reach() == Some(range)
            &&& !range.finite() || !Real::zero().less(range) ==> kind.drawn_reach() is None
        },
{
}

proof fn lemma_six_pieces(
    p: Seq<Gizmo>,
    q: Seq<Gizmo>,
    r: Seq<Gizmo>,
    s: Seq<Gizmo>,
    t: Seq<Gizmo>,
    u: Seq<Gizmo>,
)
    ensures
        ({
            let all = p + q + r + s + t + u;
            let a = p.len() as int;
            let b = a + q.len();
            let c = b + r.len();
            let d = c + s.len();
            let e = d + t.len();
            let f = e + u.len();
            &&& all.len() == f
            &&& all.subrange(0, a) == p
            &&& all.subrange(a, b) == q
            &&& all.subrange(b, c) == r
            &&& all.subrange(c, d) == s
            &&& all.subrange(d, e) == t
            &&& all.subrange(e, f) == u
        }),
{
    let all = p + q + r + s + t + u;
    let a = p.len() as int;
    let b = a + q.len();
    let c = b + r.len();
    let d = c + s.len();
    let e = d + t.len();
    let f = e + u.len();
    assert(all.subrange(0, a) =~= p);
    assert(all.subrange(a, b) =~= q);
    assert(all.subrange(b, c) =~= r);
    assert(all.subrange(c, d) =~= s);
    assert(all.subrange(d, e) =~= t);
    assert(all.subrange(e, f) =~= u);
}

/// What is drawn over a scene is exactly what is switched on, one sort after the other.
pub proof fn lemma_overlays_are_what_is_on(
    scene: &Scene,
    options: SceneDebugOptions,
    boxes: Seq<SearchBox>,
)
    ensures
        ({
            let all = scene.overlays(options, boxes);
            let nodes = scene.nodes@;
            let active = queries::first_such(scene.index.cameras@, scene.filming());
            let shapes = bounds_items(nodes, scene.index.drawables@);
            let bones = all_bones(nodes, scene.index.skinned@);
            let joints = all_joints(nodes, scene.index.skinned@);
            let axes = axes_items(nodes, scene.index.drawables@);
            let lamps = lamp_items(nodes, scene.index.lights@);
            let eyes = eye_items(nodes, scene.index.cameras@, active);
            let a = if options.bounds {
                shapes.len() as int
            } else {
                0
            };
            let b = a + if options.bvh {
                boxes.len() as int
            } else {
                0
            };
            let c = b + if options.skeletons {
                bones.len() + joints.len()
            } else {
                0
            };
            let d = c + if options.node_axes {
                axes.len() as int
            } else {
                0
            };
            let e = d + if options.lights {
                lamps.len() as int
            } else {
                0
            };
            let f = e + if options.cameras {
                eyes.len() as int
            } else {
                0
            };
            &&& all.len() == f
            &&& options.bounds ==> all.subrange(0, a) == shapes
            &&& options.bvh ==> forall|i: int|
                0 <= i < boxes.len() ==> all[a + i] == (Gizmo::Search {
                    aabb: (#[trigger] boxes[i]).aabb,
                    depth: boxes[i].depth,
                    leaf: boxes[i].leaf,
                })
            &&& options.skeletons ==> all.subrange(b, c) == bones + joints
            &&& options.node_axes ==> all.subrange(c, d) == axes
            &&& options.lights ==> all.subrange(d, e) == lamps
            &&& options.cameras ==> all.subrange(e, f) == eyes
        }),
{
    let all = scene.overlays(options, boxes);
    let nodes = scene.nodes@;
    let active = queries::first_such(scene.index.cameras@, scene.filming());
    let q = when(options.bvh, search_items(boxes));
    lemma_six_pieces(
        when(options.bounds, bounds_items(nodes, scene.index.drawables@)),
        q,
        when(
            options.skeletons,
            all_bones(nodes, scene.index.skinned@) + all_joints(nodes, scene.index.skinned@),
        ),
        when(options.node_axes, axes_items(nodes, scene.index.drawables@)),
        when(options.lights, lamp_items(nodes, scene.index.lights@)),
        when(options.cameras, eye_items(nodes, scene.index.cameras@, active)),
    );
    if options.bvh {
        let a = when(options.bounds, bounds_items(nodes, scene.index.drawables@)).len() as int;
        assert forall|i: int| 0 <= i < boxes.len() implies all[a + i] == (Gizmo::Search {
            aabb: (#[trigger] boxes[i]).aabb,
            depth: boxes[i].depth,
            leaf: boxes[i].leaf,
        }) by {
            assert(all.subrange(a, a + q.len())[i] == q[i]);
        }
    }
}

/// The bones and joints of a skin are drawn for every listed node that has one.
pub proof fn lemma_skeletons_are_drawn(nodes: Map<Handle, Node>, list: Seq<Handle>)
    requires
        list.len() > 0,
        nodes.contains_key(list.last()),
        nodes[list.last()].skin is Some,
    ensures
        ({
            let joints = nodes[list.last()].skin->0.joints@;
            &&& all_bones(nodes, list) == all_bones(nodes, list.drop_last()) + bone_items(
                nodes,
                joints,
                joints,
            )
            &&& all_joints(nodes, list) == all_joints(nodes, list.drop_last()) + joint_items(
                nodes,
                joints,
            )
        }),
{
}

} // verus!
