//! Which drawables there are and where, kept from frame to frame for culling.

use crate::numbers::Aabb;
use crate::pool::Handle;
use vstd::prelude::*;

verus! {

/// The drawables of the last two frames.
pub struct SceneCulling {
    pub handles: Vec<Handle>,
    pub bounds: Vec<Aabb>,
    pub next_handles: Vec<Handle>,
    pub next_bounds: Vec<Aabb>,
    /// How often the search structure was adjusted since it was built.
    pub refits: u32,
}

/// Up to this many drawables the search structure is built anew whenever something moved.
pub const REBUILD_THRESHOLD: usize = 2048;

/// After this many adjustments the search structure is built anew.
pub const MAX_REFITS: u32 = 240;

/// What has to be done to the search structure.
#[derive(Debug, Clone, Copy, PartialEq, Eq, Structural)]
pub enum CullAction {
    /// Nothing has changed.
    Keep,
    /// Build it from the bounds.
    Rebuild,
    /// Adjust it to the bounds.
    Refit,
}

/// All boxes are equal, as numbers.
pub open spec fn same_boxes(a: Seq<Aabb>, b: Seq<Aabb>) -> bool {
    a.len() == b.len() && forall|i: int| 0 <= i < a.len() ==> (#[trigger] a[i]).equals(b[i])
}

fn equal_handles(a: &Vec<Handle>, b: &Vec<Handle>) -> (result: bool)
    ensures
        result == (a@ == b@),
{
    if a.len() != b.len() {
        return false;
    }
    let mut i: usize = 0;
    while i < a.len()
        invariant
            i <= a@.len(),
            a@.len() == b@.len(),
            forall|j: int| 0 <= j < i ==> a@[j] == b@[j],
        decreases a@.len() - i,
    {
        if a[i] != b[i] {
            assert(a@[i as int] != b@[i as int]);
            return false;
        }
        i += 1;
    }
    assert(a@ =~= b@);
    true
}

fn equal_boxes(a: &Vec<Aabb>, b: &Vec<Aabb>) -> (result: bool)
    ensures
        result == same_boxes(a@, b@),
{
    if a.len() != b.len() {
        return false;
    }
    let mut i: usize = 0;
    while i < a.len()
        invariant
            i <= a@.len(),
            a@.len() == b@.len(),
            forall|j: int| 0 <= j < i ==> (#[trigger] a@[j]).equals(b@[j]),
        decreases a@.len() - i,
    {
        if !a[i].same_value(b[i]) {
            assert(!a@[i as int].equals(b@[i as int]));
            return false;
        }
        i += 1;
    }
    true
}

impl SceneCulling {
    /// One box for each drawable.
    pub open spec fn wf(&self) -> bool {
        self.handles@.len() == self.bounds@.len() && self.next_handles@.len()
            == self.next_bounds@.len()
    }

    pub fn new() -> (result: Self)
        ensures
            result.wf(),
            result.handles@ == Seq::<Handle>::empty(),
            result.bounds@ == Seq::<Aabb>::empty(),
            result.next_handles@ == Seq::<Handle>::empty(),
            result.next_bounds@ == Seq::<Aabb>::empty(),
            result.refits == 0,
    {
        SceneCulling {
            handles: Vec::new(),
            bounds: Vec::new(),
            next_handles: Vec::new(),
            next_bounds: Vec::new(),
            refits: 0,
        }
    }

    /// Begins to collect the drawables of a frame.
    pub fn begin(&mut self)
        ensures
            final(self).next_handles@ == Seq::<Handle>::empty(),
            final(self).next_bounds@ == Seq::<Aabb>::empty(),
            final(self).handles == old(self).handles,
            final(self).bounds == old(self).bounds,
            final(self).refits == old(self).refits,
    {
        self.next_handles.clear();
        self.next_bounds.clear();
    }

    /// Adds a drawable to the frame.
    pub fn push(&mut self, handle: Handle, aabb: Aabb)
        ensures
            final(self).next_handles@ == old(self).next_handles@.push(handle),
            final(self).next_bounds@ == old(self).next_bounds@.push(aabb),
            final(self).handles == old(self).handles,
            final(self).bounds == old(self).bounds,
            final(self).refits == old(self).refits,
    {
        self.next_handles.push(handle);
        self.next_bounds.push(aabb);
    }

    /// What has to be done to the search structure when other drawables take the place of those
    /// that are there.
    pub open spec fn action_for(&self, handles: Seq<Handle>, bounds: Seq<Aabb>) -> CullAction {
        if handles != self.handles@ {
            CullAction::Rebuild
        } else if same_boxes(bounds, self.bounds@) {
            CullAction::Keep
        } else if bounds.len() <= REBUILD_THRESHOLD || self.refits >= MAX_REFITS {
            CullAction::Rebuild
        } else {
            CullAction::Refit
        }
    }

    /// What has to be done to the search structure for the frame that was collected.
    pub open spec fn action(&self) -> CullAction {
        self.action_for(self.next_handles@, self.next_bounds@)
    }

    /// This is `before` after other drawables have taken the place of those that were there.
    pub open spec fn took(&self, before: &SceneCulling, handles: Seq<Handle>, bounds: Seq<Aabb>) -> bool {
        let action = before.action_for(handles, bounds);
        &&& self.handles@ == handles
        &&& self.bounds@ == if action == CullAction::Keep {
            before.bounds@
        } else {
            bounds
        }
        &&& self.refits == match action {
            CullAction::Keep => before.refits as int,
            CullAction::Rebuild => 0,
            CullAction::Refit => before.refits + 1,
        }
    }

    /// Takes the collected frame over and says what has to be done to the search structure. When
    /// nothing moved, the boxes of the last frame stay.
    pub fn commit(&mut self) -> (result: CullAction)
        requires
            old(self).wf(),
        ensures
            final(self).wf(),
            result == old(self).action(),
            final(self).took(old(self), old(self).next_handles@, old(self).next_bounds@),
    {
        if !equal_handles(&self.next_handles, &self.handles) {
            std::mem::swap(&mut self.handles, &mut self.next_handles);
            std::mem::swap(&mut self.bounds, &mut self.next_bounds);
            self.refits = 0;
            return CullAction::Rebuild;
        }
        if equal_boxes(&self.next_bounds, &self.bounds) {
            return CullAction::Keep;
        }
        std::mem::swap(&mut self.bounds, &mut self.next_bounds);
        if self.bounds.len() <= REBUILD_THRESHOLD || self.refits >= MAX_REFITS {
            self.refits = 0;
            CullAction::Rebuild
        } else {
            self.refits += 1;
            CullAction::Refit
        }
    }

    /// How many drawables there are.
    pub fn len(&self) -> (result: usize)
        ensures
            result == self.handles@.len(),
    {
        self.handles.len()
    }

    /// The drawable of that number.
    pub fn handle(&self, index: u32) -> (result: Handle)
        requires
            index < self.handles@.len(),
        ensures
            result == self.handles@[index as int],
    {
        self.handles[index as usize]
    }
}

/// However often things move, the search structure is adjusted at most as often as allowed before
/// it is built anew.
pub proof fn lemma_refits_stay_bounded(
    before: SceneCulling,
    after: SceneCulling,
    handles: Seq<Handle>,
    bounds: Seq<Aabb>,
)
    requires
        before.refits <= MAX_REFITS,
        after.took(&before, handles, bounds),
    ensures
        after.refits <= MAX_REFITS,
{
}

/// The search structure is kept only where the drawables are the same and no box has moved, is built
/// anew where the drawables are others, where there are few of them or where it was adjusted too
/// often, and is adjusted otherwise.
pub proof fn lemma_culling_does_what_it_takes(
    before: &SceneCulling,
    handles: Seq<Handle>,
    bounds: Seq<Aabb>,
)
    requires
        handles.len() == bounds.len(),
        before.wf(),
    ensures
        ({
            let action = before.action_for(handles, bounds);
            let same = handles == before.handles@ && forall|i: int|
                0 <= i < bounds.len() ==> (#[trigger] bounds[i]).min.equals(before.bounds@[i].min)
                    && bounds[i].max.equals(before.bounds@[i].max);
            &&& action == CullAction::Keep <==> same
            &&& handles != before.handles@ ==> action == CullAction::Rebuild
            &&& !same && handles.len() <= 2048 ==> action == CullAction::Rebuild
            &&& !same && before.refits >= 240 ==> action == CullAction::Rebuild
            &&& !same && handles == before.handles@ && handles.len() > 2048 && before.refits < 240
                ==> action == CullAction::Refit
        }),
{
}

/// After a frame was taken over, its drawables are the ones that are searched, each with its own box,
/// and adjustments are counted from the last time the structure was built.
pub proof fn lemma_culling_follows_the_frame(
    after: &SceneCulling,
    before: &SceneCulling,
    handles: Seq<Handle>,
    bounds: Seq<Aabb>,
)
    requires
        handles.len() == bounds.len(),
        before.wf(),
        after.took(before, handles, bounds),
    ensures
        after.handles@ == handles,
        after.bounds@.len() == bounds.len(),
        forall|i: int|
            0 <= i < bounds.len() ==> #[trigger] after.bounds@[i] == bounds[i] || bounds[i].equals(
                after.bounds@[i],
            ),
        before.action_for(handles, bounds) != CullAction::Keep ==> after.bounds@ == bounds,
        before.action_for(handles, bounds) == CullAction::Rebuild ==> after.refits == 0,
        before.action_for(handles, bounds) == CullAction::Refit ==> after.refits == before.refits
            + 1,
        before.action_for(handles, bounds) == CullAction::Keep ==> after.refits == before.refits,
{
}

} // verus!
