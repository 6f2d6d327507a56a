//! Animations and skins of a scene.

use crate::numbers::{Mat4, Real, Transform};
use crate::pool::Handle;
use crate::scene::graph;
use crate::scene::graph::Scene;
use crate::scene::node::Node;
use crate::scene::skin::{AnimationPlayer, MorphSample, PoseEntry, Skin};
use vstd::prelude::*;

verus! {

/// What animations drive.
#[verifier::ext_equal]
pub struct PoseState {
    pub transforms: Map<Handle, Transform>,
    pub weights: Map<Handle, Seq<Real>>,
}

/// What animations drive, in these nodes.
pub open spec fn pose_state(nodes: Map<Handle, Node>) -> PoseState {
    PoseState {
        transforms: Map::new(|h: Handle| nodes.contains_key(h), |h: Handle| nodes[h].transform),
        weights: Map::new(|h: Handle| nodes.contains_key(h), |h: Handle| nodes[h].morph_weights@),
    }
}

/// The same nodes, differing at most in what animations drive.
pub open spec fn only_poses_differ(a: Map<Handle, Node>, b: Map<Handle, Node>) -> bool {
    &&& a.dom() == b.dom()
    &&& forall|h: Handle| #[trigger]
        a.contains_key(h) ==> a[h] == (Node {
            transform: a[h].transform,
            morph_weights: a[h].morph_weights,
            ..b[h]
        })
}

impl PoseEntry {
    /// The transform with the parts that are driven replaced.
    pub open spec fn over(self, transform: Transform) -> Transform {
        Transform {
            position: match self.position {
                Some(position) => position,
                None => transform.position,
            },
            rotation: match self.rotation {
                Some(rotation) => rotation,
                None => transform.rotation,
            },
            scale: match self.scale {
                Some(scale) => scale,
                None => transform.scale,
            },
        }
    }
}

impl PoseState {
    pub open spec fn with_entry(self, player: AnimationPlayer, entry: PoseEntry) -> PoseState {
        let h = player.target_of(entry.target as int);
        if self.transforms.contains_key(h) {
            PoseState {
                transforms: self.transforms.insert(h, entry.over(self.transforms[h])),
                ..self
            }
        } else {
            self
        }
    }

    pub open spec fn with_sample(self, player: AnimationPlayer, sample: MorphSample) -> PoseState {
        let h = player.target_of(sample.target as int);
        if self.weights.contains_key(h) && sample.index < self.weights[h].len() {
            PoseState {
                weights: self.weights.insert(
                    h,
                    self.weights[h].update(sample.index as int, sample.weight),
                ),
                ..self
            }
        } else {
            self
        }
    }

    /// After the first `n` parts of a player's pose.
    pub open spec fn with_entries(self, player: AnimationPlayer, n: nat) -> PoseState
        decreases n,
    {
        if n == 0 {
            self
        } else {
            self.with_entries(player, (n - 1) as nat).with_entry(player, player.pose@[n - 1])
        }
    }

    /// After the first `n` of a player's morph weights.
    pub open spec fn with_samples(self, player: AnimationPlayer, n: nat) -> PoseState
        decreases n,
    {
        if n == 0 {
            self
        } else {
            self.with_samples(player, (n - 1) as nat).with_sample(player, player.morphs@[n - 1])
        }
    }

    /// After one player: first the pose, then the weights.
    pub open spec fn with_player(self, player: AnimationPlayer) -> PoseState {
        self.with_entries(player, player.pose@.len()).with_samples(player, player.morphs@.len())
    }

    /// After the players of the listed nodes, one after the other.
    pub open spec fn with_players(self, nodes: Map<Handle, Node>, list: Seq<Handle>) -> PoseState
        decreases list.len(),
    {
        if list.len() == 0 {
            self
        } else {
            let before = self.with_players(nodes, list.drop_last());
            let h = list.last();
            if nodes.contains_key(h) && nodes[h].animator is Some {
                before.with_player(nodes[h].animator->0)
            } else {
                before
            }
        }
    }
}

proof fn lemma_posed(nodes: Map<Handle, Node>, after: Map<Handle, Node>, h: Handle)
    requires
        nodes.contains_key(h),
        after == nodes.insert(h, after[h]),
    ensures
        pose_state(after).transforms == pose_state(nodes).transforms.insert(h, after[h].transform),
        pose_state(after).weights == pose_state(nodes).weights.insert(h, after[h].morph_weights@),
{
    assert(pose_state(after).transforms =~= pose_state(nodes).transforms.insert(
        h,
        after[h].transform,
    ));
    assert(pose_state(after).weights =~= pose_state(nodes).weights.insert(
        h,
        after[h].morph_weights@,
    ));
}

/// A node's skin has taken over the matrices that were worked out for it.
pub open spec fn skin_stored(
    before: Map<Handle, Node>,
    after: Map<Handle, Node>,
    h: Handle,
    matrices: Seq<Mat4>,
) -> bool {
    &&& after.dom() == before.dom()
    &&& forall|x: Handle|
        x != h && #[trigger] before.contains_key(x) ==> after[x] == before[x]
    &&& before.contains_key(h) ==> match before[h].skin {
        Some(skin) if skin.joints@.len() == matrices.len() => {
            &&& after[h].skin is Some
            &&& after[h].skin->0.matrices@ == matrices
            &&& after[h].skin->0 == (Skin { matrices: after[h].skin->0.matrices, ..skin })
            &&& after[h] == (Node { skin: after[h].skin, ..before[h] })
        },
        _ => after[h] == before[h],
    }
}

impl Scene {
    /// Everything but what animations drive is as in `before`.
    pub open spec fn pose_kept(&self, before: &Scene) -> bool {
        &&& only_poses_differ(self.nodes@, before.nodes@)
        &&& self.tree() == before.tree()
        &&& self.nodes.capacity() == before.nodes.capacity()
        &&& self.index == before.index
        &&& self.physics == before.physics
        &&& self.rest_same(before)
    }

    fn apply_entry(&mut self, h: Handle, entry: PoseEntry)
        requires
            old(self).wf(),
        ensures
            final(self).wf(),
            final(self).pose_kept(old(self)),
            pose_state(final(self).nodes@) == if old(self).nodes@.contains_key(h) {
                let before = pose_state(old(self).nodes@);
                PoseState {
                    transforms: before.transforms.insert(h, entry.over(before.transforms[h])),
                    ..before
                }
            } else {
                pose_state(old(self).nodes@)
            },
    {
        proof {
            graph::lemma_place_kept(self.nodes@, h);
        }
        if let Some(node) = self.nodes.try_borrow_mut(h) {
            if let Some(position) = entry.position {
                node.transform.position = position;
            }
            if let Some(rotation) = entry.rotation {
                node.transform.rotation = rotation;
            }
            if let Some(scale) = entry.scale {
                node.transform.scale = scale;
            }
        }
        proof {
            assert(self.nodes@.dom() =~= old(self).nodes@.dom());
            if old(self).nodes@.contains_key(h) {
                lemma_posed(old(self).nodes@, self.nodes@, h);
                assert(pose_state(self.nodes@).weights =~= pose_state(old(self).nodes@).weights);
            }
        }
    }

    fn apply_sample(&mut self, h: Handle, index: usize, weight: Real)
        requires
            old(self).wf(),
        ensures
            final(self).wf(),
            final(self).pose_kept(old(self)),
            pose_state(final(self).nodes@) == {
                let before = pose_state(old(self).nodes@);
                if before.weights.contains_key(h) && index < before.weights[h].len() {
                    PoseState {
                        weights: before.weights.insert(
                            h,
                            before.weights[h].update(index as int, weight),
                        ),
                        ..before
                    }
                } else {
                    before
                }
            },
    {
        proof {
            graph::lemma_place_kept(self.nodes@, h);
        }
        if let Some(node) = self.nodes.try_borrow_mut(h) {
            node.set_morph_weight(index, weight);
        }
        proof {
            assert(self.nodes@.dom() =~= old(self).nodes@.dom());
            if old(self).nodes@.contains_key(h) {
                let before = pose_state(old(self).nodes@);
                lemma_posed(old(self).nodes@, self.nodes@, h);
                assert(pose_state(self.nodes@).transforms =~= before.transforms);
                if index >= before.weights[h].len() {
                    assert(pose_state(self.nodes@).weights =~= before.weights);
                }
            }
        }
    }

    fn apply_player(&mut self, handle: Handle)
        requires
            old(self).wf(),
        ensures
            final(self).wf(),
            final(self).pose_kept(old(self)),
            pose_state(final(self).nodes@) == if old(self).nodes@.contains_key(handle) && old(
                self,
            ).nodes@[handle].animator is Some {
                pose_state(old(self).nodes@).with_player(old(self).nodes@[handle].animator->0)
            } else {
                pose_state(old(self).nodes@)
            },
    {
        let taken = match self.nodes.try_borrow_mut(handle) {
            Some(node) => {
                let mut player: Option<AnimationPlayer> = None;
                std::mem::swap(&mut player, &mut node.animator);
                player
            },
            None => None,
        };
        let player = match taken {
            Some(player) => player,
            None => {
                proof {
                    assert(self.nodes@ =~= old(self).nodes@);
                }
                return;
            },
        };
        let ghost start = pose_state(old(self).nodes@);
        let ghost without = self.nodes@;
        proof {
            graph::lemma_place_kept(old(self).nodes@, handle);
            assert(self.nodes@.dom() =~= old(self).nodes@.dom());
            assert(pose_state(self.nodes@).transforms =~= start.transforms);
            assert(pose_state(self.nodes@).weights =~= start.weights);
        }
        let mut i: usize = 0;
        while i < player.pose.len()
            invariant
                self.wf(),
                i <= player.pose@.len(),
                only_poses_differ(self.nodes@, without),
                self.tree() == old(self).tree(),
                self.nodes.capacity() == old(self).nodes.capacity(),
                self.index == old(self).index,
                self.physics == old(self).physics,
                self.rest_same(old(self)),
                pose_state(self.nodes@) == start.with_entries(player, i as nat),
            decreases player.pose@.len() - i,
        {
            let entry = player.pose[i];
            self.apply_entry(player.target(entry.target), entry);
            i += 1;
        }
        let ghost posed = pose_state(self.nodes@);
        let mut i: usize = 0;
        while i < player.morphs.len()
            invariant
                self.wf(),
                i <= player.morphs@.len(),
                only_poses_differ(self.nodes@, without),
                self.tree() == old(self).tree(),
                self.nodes.capacity() == old(self).nodes.capacity(),
                self.index == old(self).index,
                self.physics == old(self).physics,
                self.rest_same(old(self)),
                pose_state(self.nodes@) == posed.with_samples(player, i as nat),
            decreases player.morphs@.len() - i,
        {
            let sample = player.morphs[i];
            self.apply_sample(player.target(sample.target), sample.index, sample.weight);
            i += 1;
        }
        let ghost done = self.nodes@;
        proof {
            assert(without.contains_key(handle));
            assert(done.contains_key(handle));
            graph::lemma_place_kept(done, handle);
        }
        self.nodes.borrow_mut(handle).animator = Some(player);
        proof {
            assert(self.nodes@.dom() =~= old(self).nodes@.dom());
            assert(pose_state(self.nodes@).transforms =~= pose_state(done).transforms);
            assert(pose_state(self.nodes@).weights =~= pose_state(done).weights);
            assert forall|h: Handle| #[trigger] self.nodes@.contains_key(h) implies self.nodes@[h]
                == (Node {
                transform: self.nodes@[h].transform,
                morph_weights: self.nodes@[h].morph_weights,
                ..old(self).nodes@[h]
            }) by {
                assert(done.contains_key(h));
                assert(without.contains_key(h));
            }
        }
    }

    /// Lets all players write their pose of this moment onto the nodes that they animate. Targets
    /// that are not there are passed over; parts that a pose does not drive stay.
    pub fn tick_animations(&mut self)
        requires
            old(self).wf(),
        ensures
            final(self).wf(),
            final(self).pose_kept(old(self)),
            pose_state(final(self).nodes@) == pose_state(old(self).nodes@).with_players(
                old(self).nodes@,
                old(self).index.animators@,
            ),
    {
        let mut i: usize = 0;
        assert(self.index.animators@.take(0) =~= Seq::<Handle>::empty());
        while i < self.index.animators.len()
            invariant
                self.wf(),
                i <= self.index.animators@.len(),
                self.pose_kept(old(self)),
                pose_state(self.nodes@) == pose_state(old(self).nodes@).with_players(
                    old(self).nodes@,
                    self.index.animators@.take(i as int),
                ),
            decreases self.index.animators@.len() - i,
        {
            let handle = self.index.animators[i];
            let ghost list = self.index.animators@;
            let ghost before = self.nodes@;
            proof {
                assert(list.take(i + 1).drop_last() =~= list.take(i as int));
                assert(before.contains_key(handle) == old(self).nodes@.contains_key(handle));
                if before.contains_key(handle) {
                    assert(before[handle].animator == old(self).nodes@[handle].animator);
                }
            }
            self.apply_player(handle);
            proof {
                assert forall|h: Handle| #[trigger]
                    self.nodes@.contains_key(h) implies self.nodes@[h] == (Node {
                    transform: self.nodes@[h].transform,
                    morph_weights: self.nodes@[h].morph_weights,
                    ..old(self).nodes@[h]
                }) by {
                    assert(before.contains_key(h));
                }
            }
            i += 1;
        }
        assert(self.index.animators@.take(i as int) =~= self.index.animators@);
    }

    /// Where the joint that pulls at a skin stands in the world; a joint that is not there pulls
    /// at nothing.
    pub open spec fn joint_place(&self, joint: Handle) -> Mat4 {
        if self.nodes@.contains_key(joint) {
            self.nodes@[joint].global_transform
        } else {
            Mat4::identity()
        }
    }

    /// Where the joints of a node's skin stand in the world, for its matrices to be worked out.
    pub fn skin_places(&self, handle: Handle) -> (result: Option<Vec<Mat4>>)
        ensures
            result is Some <==> self.nodes@.contains_key(handle) && self.nodes@[handle].skin is Some,
            result matches Some(places) ==> {
                let joints = self.nodes@[handle].skin->0.joints@;
                &&& places@.len() == joints.len()
                &&& forall|i: int|
                    0 <= i < joints.len() ==> places@[i] == self.joint_place(#[trigger] joints[i])
            },
    {
        let skin = match self.nodes.try_borrow(handle) {
            Some(node) => match &node.skin {
                Some(skin) => skin,
                None => {
                    return None;
                },
            },
            None => {
                return None;
            },
        };
        let mut places: Vec<Mat4> = Vec::new();
        while places.len() < skin.joints.len()
            invariant
                places@.len() <= skin.joints@.len(),
                forall|i: int|
                    0 <= i < places@.len() ==> places@[i] == self.joint_place(
                        #[trigger] skin.joints@[i],
                    ),
            decreases skin.joints@.len() - places@.len(),
        {
            let joint = skin.joints[places.len()];
            let place = match self.nodes.try_borrow(joint) {
                Some(node) => node.global_transform,
                None => Mat4::identity(),
            };
            places.push(place);
        }
        Some(places)
    }

    /// Takes over the matrices that were worked out for a node's skin. Nothing happens where there
    /// is no skin, or not one matrix for each joint.
    pub fn store_skin(&mut self, handle: Handle, matrices: Vec<Mat4>)
        requires
            old(self).wf(),
        ensures
            skin_stored(old(self).nodes@, final(self).nodes@, handle, matrices@),
            final(self).wf(),
            final(self).tree() == old(self).tree(),
            final(self).nodes@ == if old(self).nodes@.contains_key(handle) && (old(
                self,
            ).nodes@[handle].skin matches Some(skin) && skin.joints@.len() == matrices@.len()) {
                let node = old(self).nodes@[handle];
                old(self).nodes@.insert(
                    handle,
                    Node { skin: Some(Skin { matrices, ..node.skin->0 }), ..node },
                )
            } else {
                old(self).nodes@
            },
            final(self).nodes.capacity() == old(self).nodes.capacity(),
            final(self).index == old(self).index,
            final(self).physics == old(self).physics,
            final(self).rest_same(old(self)),
    {
        proof {
            graph::lemma_place_kept(self.nodes@, handle);
        }
        if let Some(node) = self.nodes.try_borrow_mut(handle) {
            if let Some(skin) = &mut node.skin {
                if skin.joints.len() == matrices.len() {
                    skin.set_matrices(matrices);
                }
            }
        }
        proof {
            if !(old(self).nodes@.contains_key(handle) && (old(self).nodes@[handle].skin matches Some(
                skin,
            ) && skin.joints@.len() == matrices@.len())) {
                assert(self.nodes@ =~= old(self).nodes@);
            }
            assert(self.nodes@.dom() =~= old(self).nodes@.dom());
        }
    }
}

} // verus!
