//! Bodies in the plane, for pictures and for nodes that lie in it.

use crate::numbers::{Quat, Real, Transform, Vec3};
use crate::pool::{Handle, Pool};
use crate::scene::graph;
use crate::scene::graph::Scene;
use crate::scene::node::Node;
use vstd::prelude::*;

verus! {

/// A body in the plane. The plane's solver knows nothing of the other one.
#[derive(Debug, Clone, Copy, PartialEq, Eq, Structural)]
pub struct FlatBody {
    pub x: Real,
    pub y: Real,
    pub angle: Real,
    pub user_data: u128,
}

/// A node was put where a body in the plane is, at the depth where it was.
pub open spec fn laid_flat(
    before: Map<Handle, Node>,
    after: Map<Handle, Node>,
    h: Handle,
    flat: FlatBody,
    rotation: Quat,
) -> bool {
    let place = before[h].transform;
    &&& after.dom() == before.dom()
    &&& after[h] == (Node {
        transform: Transform {
            position: Vec3 { x: flat.x, y: flat.y, ..place.position },
            rotation,
            ..place
        },
        ..before[h]
    })
    &&& forall|x: Handle|
        x != h && #[trigger] before.contains_key(x) ==> after[x] == before[x]
}

impl Scene {
    pub fn physics2d(&self) -> (result: &Pool<FlatBody>)
        ensures
            *result == self.physics2d,
    {
        &self.physics2d
    }

    /// The bodies in the plane for writing. The scene stays well formed as long as they do.
    pub fn physics2d_mut(&mut self) -> (result: &mut Pool<FlatBody>)
        ensures
            *result == old(self).physics2d,
            *final(self) == (Scene { physics2d: *final(result), ..*old(self) }),
            old(self).wf() && final(result).wf() ==> final(self).wf(),
    {
        &mut self.physics2d
    }

    /// Puts a node where a body in the plane is. How far the node lies behind the plane stays:
    /// pictures are sorted by it. `rotation` is the body's angle about the axis that stands on the
    /// plane. The result is `false`, and nothing happens, if either is not there.
    pub fn sync_node_from_2d_body(&mut self, node: Handle, body: Handle, rotation: Quat) -> (result:
        bool)
        requires
            old(self).wf(),
        ensures
            result ==> laid_flat(
                old(self).nodes@,
                final(self).nodes@,
                node,
                old(self).physics2d@[body],
                rotation,
            ),
            final(self).wf(),
            final(self).tree() == old(self).tree(),
            result == (old(self).physics2d@.contains_key(body) && old(self).nodes@.contains_key(
                node,
            )),
            final(self).nodes@ == if result {
                let before = old(self).nodes@[node];
                let flat = old(self).physics2d@[body];
                old(self).nodes@.insert(
                    node,
                    Node {
                        transform: Transform {
                            position: Vec3 {
                                x: flat.x,
                                y: flat.y,
                                z: before.transform.position.z,
                            },
                            rotation,
                            scale: before.transform.scale,
                        },
                        ..before
                    },
                )
            } else {
                old(self).nodes@
            },
            final(self).nodes.capacity() == old(self).nodes.capacity(),
            final(self).index == old(self).index,
            final(self).physics == old(self).physics,
            final(self).rest_same(old(self)),
    {
        let flat = match self.physics2d.try_borrow(body) {
            Some(flat) => *flat,
            None => {
                return false;
            },
        };
        proof {
            graph::lemma_place_kept(self.nodes@, node);
            if self.nodes@.contains_key(node) {
                assert(forall|it: Node|
                    #[trigger] self.nodes@.insert(node, it).dom() =~= self.nodes@.dom());
            }
        }
        match self.nodes.try_borrow_mut(node) {
            Some(node) => {
                node.transform.position.x = flat.x;
                node.transform.position.y = flat.y;
                node.transform.rotation = rotation;
                true
            },
            None => false,
        }
    }
}

/// A node that follows a body in the plane is where the body is in the plane and as far behind it as
/// it was; it is turned as asked, and keeps its scale and everything that it carries.
pub proof fn lemma_node_follows_its_flat_body(
    before: Map<Handle, Node>,
    after: Map<Handle, Node>,
    h: Handle,
    flat: FlatBody,
    rotation: Quat,
)
    requires
        laid_flat(before, after, h, flat, rotation),
        before.contains_key(h),
    ensures
        after[h].transform.position.x == flat.x,
        after[h].transform.position.y == flat.y,
        after[h].transform.position.z == before[h].transform.position.z,
        after[h].transform.rotation == rotation,
        after[h].transform.scale == before[h].transform.scale,
        after[h].name == before[h].name,
        after[h].visible == before[h].visible,
        after[h].parent == before[h].parent,
        after[h].children == before[h].children,
        after[h].rigid_body == before[h].rigid_body,
        forall|x: Handle|
            x != h && #[trigger] before.contains_key(x) ==> after[x] == before[x],
{
}

} // verus!
