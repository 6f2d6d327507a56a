//! Skeletons, and the players that animate nodes.

use crate::numbers::{Mat4, Quat, Real, Vec3};
use crate::pool::Handle;
use vstd::prelude::*;

verus! {

/// The joints that pull a mesh along.
#[derive(Debug)]
pub struct Skin {
    pub joints: Vec<Handle>,
    /// For each joint, the way back from its bind pose.
    pub inverse_bind: Vec<Mat4>,
    /// For each joint, where it takes a vertex now.
    pub matrices: Vec<Mat4>,
}

/// The shorter of two lengths.
pub open spec fn shorter(a: nat, b: nat) -> nat {
    if a <= b {
        a
    } else {
        b
    }
}

impl Skin {
    /// As many matrices as joints, of both sorts.
    pub open spec fn wf(self) -> bool {
        self.joints@.len() == self.inverse_bind@.len() && self.joints@.len() == self.matrices@.len()
    }

    /// The same joints with the same matrices.
    pub open spec fn same(self, other: Skin) -> bool {
        &&& self.joints@ == other.joints@
        &&& self.inverse_bind@ == other.inverse_bind@
        &&& self.matrices@ == other.matrices@
    }

    /// A skin at rest. Of two lists of different lengths the longer one is cut.
    pub fn new(joints: Vec<Handle>, inverse_bind: Vec<Mat4>) -> (result: Self)
        ensures
            result.wf(),
            result.joints@ == joints@.take(shorter(joints@.len(), inverse_bind@.len()) as int),
            result.inverse_bind@ == inverse_bind@.take(
                shorter(joints@.len(), inverse_bind@.len()) as int,
            ),
            forall|i: int|
                0 <= i < result.matrices@.len() ==> result.matrices@[i] == Mat4::identity(),
    {
        let mut joints = joints;
        let mut inverse_bind = inverse_bind;
        let count: usize = if joints.len() <= inverse_bind.len() {
            joints.len()
        } else {
            inverse_bind.len()
        };
        let ghost all_joints = joints@;
        let ghost all_binds = inverse_bind@;
        joints.truncate(count);
        inverse_bind.truncate(count);
        assert(joints@ =~= all_joints.take(count as int));
        assert(inverse_bind@ =~= all_binds.take(count as int));
        let mut matrices: Vec<Mat4> = Vec::new();
        while matrices.len() < count
            invariant
                matrices@.len() <= count,
                forall|i: int| 0 <= i < matrices@.len() ==> matrices@[i] == Mat4::identity(),
            decreases count - matrices@.len(),
        {
            matrices.push(Mat4::identity());
        }
        Skin { joints, inverse_bind, matrices }
    }

    pub fn len(&self) -> (result: usize)
        ensures
            result == self.joints@.len(),
    {
        self.joints.len()
    }

    pub fn is_empty(&self) -> (result: bool)
        ensures
            result == (self.joints@.len() == 0),
    {
        self.joints.len() == 0
    }

    pub fn joints(&self) -> (result: &Vec<Handle>)
        ensures
            *result == self.joints,
    {
        &self.joints
    }

    pub fn inverse_bind(&self) -> (result: &Vec<Mat4>)
        ensures
            *result == self.inverse_bind,
    {
        &self.inverse_bind
    }

    pub fn matrices(&self) -> (result: &Vec<Mat4>)
        ensures
            *result == self.matrices,
    {
        &self.matrices
    }

    /// A second skin with the same joints and matrices.
    pub fn duplicate(&self) -> (result: Self)
        ensures
            result.same(*self),
    {
        let mut joints: Vec<Handle> = Vec::new();
        joints.extend_from_slice(self.joints.as_slice());
        let mut inverse_bind: Vec<Mat4> = Vec::new();
        inverse_bind.extend_from_slice(self.inverse_bind.as_slice());
        let mut matrices: Vec<Mat4> = Vec::new();
        matrices.extend_from_slice(self.matrices.as_slice());
        assert(joints@ =~= self.joints@);
        assert(inverse_bind@ =~= self.inverse_bind@);
        assert(matrices@ =~= self.matrices@);
        Skin { joints, inverse_bind, matrices }
    }

    /// Takes over the matrices that were computed from the joints' places.
    pub fn set_matrices(&mut self, matrices: Vec<Mat4>)
        requires
            matrices@.len() == old(self).joints@.len(),
        ensures
            *final(self) == (Skin { matrices, ..*old(self) }),
            old(self).wf() ==> final(self).wf(),
    {
        self.matrices = matrices;
    }
}

/// What an animation says of one node at one time; parts it does not drive are left out.
#[derive(Debug, Clone, Copy, PartialEq, Eq, Structural)]
pub struct PoseEntry {
    pub target: usize,
    pub position: Option<Vec3>,
    pub rotation: Option<Quat>,
    pub scale: Option<Vec3>,
}

/// What an animation says of one morph weight at one time.
#[derive(Debug, Clone, Copy, PartialEq, Eq, Structural)]
pub struct MorphSample {
    pub target: usize,
    pub index: usize,
    pub weight: Real,
}

/// Plays animations onto nodes.
#[derive(Debug)]
pub struct AnimationPlayer {
    /// The names of the clips it can play.
    pub clips: Vec<String>,
    /// Which clips are running.
    pub playing: Vec<usize>,
    /// Time passes for the clips.
    pub running: bool,
    pub speed: Real,
    /// The node for each target of the clips.
    pub targets: Vec<Handle>,
    /// The pose of this moment.
    pub pose: Vec<PoseEntry>,
    /// The morph weights of this moment.
    pub morphs: Vec<MorphSample>,
}

impl AnimationPlayer {
    /// A player that plays nothing yet.
    pub fn new(clips: Vec<String>, targets: Vec<Handle>) -> (result: Self)
        ensures
            result.clips == clips,
            result.targets == targets,
            result.playing@ == Seq::<usize>::empty(),
            result.running,
            result.speed == Real::one(),
            result.pose@ == Seq::<PoseEntry>::empty(),
            result.morphs@ == Seq::<MorphSample>::empty(),
    {
        AnimationPlayer {
            clips,
            playing: Vec::new(),
            running: true,
            speed: Real::one(),
            targets,
            pose: Vec::new(),
            morphs: Vec::new(),
        }
    }

    pub fn targets(&self) -> (result: &Vec<Handle>)
        ensures
            *result == self.targets,
    {
        &self.targets
    }

    /// The node of a target; targets that there are not have no node.
    pub open spec fn target_of(self, index: int) -> Handle {
        if 0 <= index < self.targets@.len() {
            self.targets@[index]
        } else {
            Handle::none()
        }
    }

    pub fn target(&self, index: usize) -> (result: Handle)
        ensures
            result == self.target_of(index as int),
    {
        if index < self.targets.len() {
            self.targets[index]
        } else {
            Handle::none()
        }
    }

    /// The number of the first clip of that name.
    pub fn find_clip(&self, name: &str) -> (result: Option<usize>)
        ensures
            match result {
                Some(at) => {
                    &&& at < self.clips@.len()
                    &&& self.clips@[at as int]@ == name@
                    &&& forall|j: int| 0 <= j < at ==> (#[trigger] self.clips@[j])@ != name@
                },
                None => forall|j: int|
                    0 <= j < self.clips@.len() ==> (#[trigger] self.clips@[j])@ != name@,
            },
    {
        let wanted = name.to_owned();
        let mut i: usize = 0;
        while i < self.clips.len()
            invariant
                i <= self.clips@.len(),
                wanted@ == name@,
                forall|j: int| 0 <= j < i ==> (#[trigger] self.clips@[j])@ != name@,
            decreases self.clips@.len() - i,
        {
            if self.clips[i] == wanted {
                return Some(i);
            }
            i += 1;
        }
        None
    }

    /// There is a clip of that name.
    pub open spec fn knows(self, name: Seq<char>) -> bool {
        exists|j: int| 0 <= j < self.clips@.len() && (#[trigger] self.clips@[j])@ == name
    }

    /// `before` with the first clip of a name running too.
    pub open spec fn started(self, before: AnimationPlayer, name: Seq<char>) -> bool {
        &&& self == (AnimationPlayer { playing: self.playing, ..before })
        &&& exists|at: usize|
            {
                &&& at < before.clips@.len()
                &&& (#[trigger] before.clips@[at as int])@ == name
                &&& forall|j: int| 0 <= j < at ==> (#[trigger] before.clips@[j])@ != name
                &&& self.playing@ == before.playing@.push(at)
            }
    }

    /// Starts the first clip of that name, and says whether there is one.
    pub fn play_by_name(&mut self, name: &str) -> (result: bool)
        ensures
            result == old(self).knows(name@),
            result ==> final(self).started(*old(self), name@),
            !result ==> *final(self) == *old(self),
    {
        match self.find_clip(name) {
            Some(at) => {
                self.playing.push(at);
                true
            },
            None => false,
        }
    }
}

} // verus!
