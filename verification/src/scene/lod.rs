//! Levels of detail: of several children of a node, only the one that suits the distance is shown.

use crate::numbers::Real;
use vstd::prelude::*;

verus! {

/// One level of detail.
#[derive(Debug, Clone, Copy, PartialEq, Eq, Structural)]
pub struct LodLevel {
    /// The level is shown from this distance on.
    pub distance: Real,
    /// How much closer one must come, as a part of the distance, for the level to be left again.
    pub hysteresis: Real,
}

impl LodLevel {
    /// A distance that is finite and has no sign, and a part between none and all.
    pub open spec fn wf(self) -> bool {
        &&& self.distance.finite()
        &&& !self.distance.negative()
        &&& Real::zero().at_most(self.hysteresis)
        &&& self.hysteresis.at_most(Real::one())
    }

    /// The level that these numbers mean: a distance without its sign, the largest one where it is
    /// not finite, and a part that is cut to what a part can be.
    pub open spec fn meant(distance: Real, hysteresis: Real) -> LodLevel {
        LodLevel {
            distance: if distance.finite() {
                Real { bits: distance.magnitude() as u32 }
            } else {
                Real::largest()
            },
            hysteresis: if hysteresis.nan() || hysteresis.less(Real::zero()) {
                Real::zero()
            } else if Real::one().less(hysteresis) {
                Real::one()
            } else {
                hysteresis
            },
        }
    }
}

/// The levels of detail of a node. Level `i` stands for the node's child `i`.
#[derive(Debug)]
pub struct Lod {
    pub levels: Vec<LodLevel>,
    pub current: usize,
    /// Whether the level is chosen by distance each frame.
    pub auto_update: bool,
}

/// How many of the levels, from the first on, begin no farther away than `distance`.
pub open spec fn reached(levels: Seq<LodLevel>, distance: Real) -> nat
    decreases levels.len(),
{
    if levels.len() == 0 || !levels[0].distance.at_most(distance) {
        0
    } else {
        1 + reached(levels.drop_first(), distance)
    }
}

proof fn lemma_reached(levels: Seq<LodLevel>, distance: Real, n: nat)
    requires
        n <= levels.len(),
        forall|i: int| 0 <= i < n ==> (#[trigger] levels[i]).distance.at_most(distance),
        n < levels.len() ==> !levels[n as int].distance.at_most(distance),
    ensures
        reached(levels, distance) == n,
    decreases n,
{
    if n > 0 {
        let rest = levels.drop_first();
        assert(levels[0].distance.at_most(distance));
        assert forall|i: int| 0 <= i < n - 1 implies (#[trigger] rest[i]).distance.at_most(
            distance,
        ) by {
            assert(rest[i] == levels[i + 1]);
        }
        if n < levels.len() {
            assert(rest[n - 1] == levels[n as int]);
        }
        lemma_reached(rest, distance, (n - 1) as nat);
    }
}

impl Lod {
    /// The levels are sorted by distance, and the current one is among them.
    pub open spec fn wf(&self) -> bool {
        &&& forall|i: int| 0 <= i < self.levels@.len() ==> (#[trigger] self.levels@[i]).wf()
        &&& forall|i: int, j: int|
            0 <= i < j < self.levels@.len() ==> (#[trigger] self.levels@[i]).distance.at_most(
                (#[trigger] self.levels@[j]).distance,
            )
        &&& self.current == 0 || self.current < self.levels@.len()
    }

    /// No levels: all children are shown.
    pub fn new() -> (result: Self)
        ensures
            result.wf(),
            result.levels@ == Seq::<LodLevel>::empty(),
            result.current == 0,
            result.auto_update,
    {
        Lod { levels: Vec::new(), current: 0, auto_update: true }
    }

    /// One more level, from `distance` on.
    pub fn with_level(self, distance: Real) -> (result: Self)
        requires
            self.wf(),
        ensures
            result.wf(),
            result.added(&self, LodLevel::meant(distance, Real::zero())),
    {
        let mut result = self;
        let _ = result.add_level(distance, Real::zero());
        result
    }

    /// One more level, from `distance` on, that is left only some way closer.
    pub fn with_level_hysteresis(self, distance: Real, hysteresis: Real) -> (result: Self)
        requires
            self.wf(),
        ensures
            result.wf(),
            result.added(&self, LodLevel::meant(distance, hysteresis)),
    {
        let mut result = self;
        let _ = result.add_level(distance, hysteresis);
        result
    }

    /// `before` with one more level, behind those that are no farther.
    pub open spec fn added(&self, before: &Lod, level: LodLevel) -> bool {
        &&& self.levels@ == before.levels@.insert(
            reached(before.levels@, level.distance) as int,
            level,
        )
        &&& self.current == before.current
        &&& self.auto_update == before.auto_update
    }

    /// Adds a level where it belongs by distance, and gives its number.
    pub fn add_level(&mut self, distance: Real, hysteresis: Real) -> (result: usize)
        requires
            old(self).wf(),
        ensures
            final(self).wf(),
            final(self).added(old(self), LodLevel::meant(distance, hysteresis)),
            result == reached(old(self).levels@, LodLevel::meant(distance, hysteresis).distance),
            result <= old(self).levels@.len(),
    {
        let level = LodLevel {
            distance: if distance.is_finite() {
                distance.abs()
            } else {
                Real::largest()
            },
            hysteresis: if hysteresis.is_nan() || hysteresis.is_less(Real::zero()) {
                Real::zero()
            } else if Real::one().is_less(hysteresis) {
                Real::one()
            } else {
                hysteresis
            },
        };
        let mut index: usize = 0;
        while index < self.levels.len() && self.levels[index].distance.is_at_most(level.distance)
            invariant
                index <= self.levels@.len(),
                forall|i: int|
                    0 <= i < index ==> (#[trigger] self.levels@[i]).distance.at_most(
                        level.distance,
                    ),
            decreases self.levels@.len() - index,
        {
            index += 1;
        }
        proof {
            lemma_reached(self.levels@, level.distance, index as nat);
        }
        let ghost before = self.levels@;
        self.levels.insert(index, level);
        proof {
            let now = self.levels@;
            assert forall|i: int| 0 <= i < now.len() implies (#[trigger] now[i]).wf() by {
                if i < index {
                    assert(now[i] == before[i]);
                } else if i > index {
                    assert(now[i] == before[i - 1]);
                }
            }
            assert forall|i: int, j: int| 0 <= i < j < now.len() implies (
            #[trigger] now[i]).distance.at_most((#[trigger] now[j]).distance) by {
                let a = if i < index {
                    before[i]
                } else if i > index {
                    before[i - 1]
                } else {
                    level
                };
                let b = if j < index {
                    before[j]
                } else if j > index {
                    before[j - 1]
                } else {
                    level
                };
                assert(now[i] == a && now[j] == b);
                if i < index && j > index {
                    assert(before[i].distance.at_most(before[j - 1].distance));
                }
                if i == index {
                    assert(!before[index as int].distance.at_most(level.distance));
                    assert(before[j - 1].wf());
                    assert(before[index as int].wf());
                    if index < j - 1 {
                        assert(before[index as int].distance.at_most(before[j - 1].distance));
                    }
                }
                if i > index {
                    assert(before[i - 1].distance.at_most(before[j - 1].distance));
                }
            }
        }
        index
    }

    /// The levels, nearest first.
    pub fn levels(&self) -> (result: &[LodLevel])
        ensures
            result@ == self.levels@,
    {
        self.levels.as_slice()
    }

    /// The level that is shown.
    pub fn current(&self) -> (result: usize)
        ensures
            result == self.current,
    {
        self.current
    }

    /// Shows a level; numbers beyond the last mean the last.
    pub fn set_current(&mut self, level: usize)
        requires
            old(self).wf(),
        ensures
            final(self).wf(),
            final(self).levels == old(self).levels,
            final(self).auto_update == old(self).auto_update,
            final(self).current == if old(self).levels@.len() == 0 {
                0
            } else if level < old(self).levels@.len() {
                level as int
            } else {
                old(self).levels@.len() - 1
            },
    {
        self.current =
        if self.levels.len() == 0 {
            0
        } else if level < self.levels.len() {
            level
        } else {
            self.levels.len() - 1
        };
    }

    /// From which distance on level `index` is shown: once it or a farther one is shown, it stays
    /// until one comes closer than its relaxed distance.
    pub open spec fn threshold(&self, relaxed: Seq<Real>, index: int) -> Real {
        if self.current >= index {
            relaxed[index]
        } else {
            self.levels@[index].distance
        }
    }

    /// The level to show: the one before the first that is still too far away.
    pub open spec fn chosen(&self, distance: Real, relaxed: Seq<Real>) -> int {
        if self.levels@.len() < 2 || distance.nan() {
            0
        } else if exists|i: int|
            1 <= i < self.levels@.len() && distance.less(#[trigger] self.threshold(relaxed, i)) {
            self.first_beyond(distance, relaxed) - 1
        } else {
            self.levels@.len() - 1
        }
    }

    /// The first level, but for level 0, whose threshold is beyond `distance`.
    pub open spec fn first_beyond(&self, distance: Real, relaxed: Seq<Real>) -> int {
        choose|i: int|
            {
                &&& 1 <= i < self.levels@.len()
                &&& distance.less(#[trigger] self.threshold(relaxed, i))
                &&& forall|j: int|
                    1 <= j < i ==> !distance.less(#[trigger] self.threshold(relaxed, j))
            }
    }

    /// Which level to show at a distance. `relaxed` holds each level's distance lessened by its
    /// hysteresis.
    pub fn select(&self, distance: Real, relaxed: &Vec<Real>) -> (result: usize)
        requires
            relaxed@.len() == self.levels@.len(),
        ensures
            result == self.chosen(distance, relaxed@),
            result == 0 || result < self.levels@.len(),
    {
        if self.levels.len() < 2 || distance.is_nan() {
            return 0;
        }
        let mut index: usize = 1;
        while index < self.levels.len()
            invariant
                relaxed@.len() == self.levels@.len(),
                self.levels@.len() >= 2,
                !distance.nan(),
                1 <= index <= self.levels@.len(),
                forall|j: int|
                    1 <= j < index ==> !distance.less(#[trigger] self.threshold(relaxed@, j)),
            decreases self.levels@.len() - index,
        {
            let threshold = if self.current >= index {
                relaxed[index]
            } else {
                self.levels[index].distance
            };
            if distance.is_less(threshold) {
                proof {
                    assert(self.threshold(relaxed@, index as int) == threshold);
                    let first = self.first_beyond(distance, relaxed@);
                    assert(first == index) by {
                        if first < index {
                            assert(!distance.less(self.threshold(relaxed@, first)));
                        }
                        if first > index {
                            assert(!distance.less(self.threshold(relaxed@, index as int)));
                        }
                    }
                }
                return index - 1;
            }
            index += 1;
        }
        self.levels.len() - 1
    }

    /// Chooses the level for a distance and shows it.
    pub fn update(&mut self, distance: Real, relaxed: &Vec<Real>) -> (result: usize)
        requires
            old(self).wf(),
            relaxed@.len() == old(self).levels@.len(),
        ensures
            final(self).wf(),
            result == old(self).chosen(distance, relaxed@),
            *final(self) == (Lod { current: result, ..*old(self) }),
    {
        self.current = self.select(distance, relaxed);
        self.current
    }

    /// Whether a child is shown. Children that stand for no level always are.
    #[verifier::allow_in_spec]
    pub fn shows_child(&self, child: usize) -> bool
        returns
            (child >= self.levels@.len() || child == self.current),
    {
        child >= self.levels.len() || child == self.current
    }

    /// The levels as they are saved.
    pub open spec fn saved_levels(distances: Seq<Real>, hysteresis: Seq<Real>) -> Seq<LodLevel>
        decreases distances.len(),
    {
        if distances.len() == 0 {
            Seq::empty()
        } else {
            let front = Self::saved_levels(distances.drop_last(), hysteresis);
            let at = distances.len() - 1;
            let level = LodLevel::meant(
                distances[at],
                if at < hysteresis.len() {
                    hysteresis[at]
                } else {
                    Real::zero()
                },
            );
            front.insert(reached(front, level.distance) as int, level)
        }
    }

    /// Levels that were saved. They are sorted again, and the nearest is shown until one is chosen.
    pub fn from_saved(
        distances: &Vec<Real>,
        hysteresis: &Vec<Real>,
        auto_update: bool,
    ) -> (result: Self)
        ensures
            result.wf(),
            result.levels@ == Self::saved_levels(distances@, hysteresis@),
            result.current == 0,
            result.auto_update == auto_update,
    {
        let mut result = Lod::new();
        result.auto_update = auto_update;
        let mut i: usize = 0;
        while i < distances.len()
            invariant
                i <= distances@.len(),
                result.wf(),
                result.levels@ == Self::saved_levels(distances@.take(i as int), hysteresis@),
                result.current == 0,
                result.auto_update == auto_update,
            decreases distances@.len() - i,
        {
            let part = if i < hysteresis.len() {
                hysteresis[i]
            } else {
                Real::zero()
            };
            assert(distances@.take(i + 1).drop_last() =~= distances@.take(i as int));
            let _ = result.add_level(distances[i], part);
            i += 1;
        }
        assert(distances@.take(i as int) =~= distances@);
        result
    }

    /// The distances of the levels, for saving.
    pub open spec fn distances_of(levels: Seq<LodLevel>) -> Seq<Real> {
        levels.map_values(|level: LodLevel| level.distance)
    }

    /// The hysteresis of the levels, for saving.
    pub open spec fn hysteresis_of(levels: Seq<LodLevel>) -> Seq<Real> {
        levels.map_values(|level: LodLevel| level.hysteresis)
    }
}

impl Default for Lod {
    fn default() -> (result: Self)
        ensures
            result.wf(),
            result.levels@ == Seq::<LodLevel>::empty(),
            result.current == 0,
            result.auto_update,
    {
        Lod::new()
    }
}

proof fn lemma_saved_prefix(lod: &Lod, n: nat)
    requires
        lod.wf(),
        n <= lod.levels@.len(),
    ensures
        Lod::saved_levels(
            Lod::distances_of(lod.levels@).take(n as int),
            Lod::hysteresis_of(lod.levels@),
        ) == lod.levels@.take(n as int),
    decreases n,
{
    let distances = Lod::distances_of(lod.levels@);
    let parts = Lod::hysteresis_of(lod.levels@);
    if n > 0 {
        let before = (n - 1) as nat;
        lemma_saved_prefix(lod, before);
        let front = lod.levels@.take(before as int);
        let level = lod.levels@[before as int];
        assert(distances.take(n as int).drop_last() =~= distances.take(before as int));
        assert(level.wf());
        assert(LodLevel::meant(level.distance, level.hysteresis) == level);
        assert forall|i: int| 0 <= i < before implies (#[trigger] front[i]).distance.at_most(
            level.distance,
        ) by {
            assert(front[i] == lod.levels@[i]);
        }
        lemma_reached(front, level.distance, before);
        assert(front.insert(before as int, level) =~= lod.levels@.take(n as int));
    } else {
        assert(lod.levels@.take(0) =~= Seq::<LodLevel>::empty());
        assert(distances.take(0) =~= Seq::<Real>::empty());
    }
}

/// Saving the levels and reading them back gives the same levels.
pub proof fn lemma_levels_survive_saving(lod: &Lod)
    requires
        lod.wf(),
    ensures
        Lod::saved_levels(Lod::distances_of(lod.levels@), Lod::hysteresis_of(lod.levels@))
            == lod.levels@,
{
    let n = lod.levels@.len();
    lemma_saved_prefix(lod, n);
    assert(Lod::distances_of(lod.levels@).take(n as int) =~= Lod::distances_of(lod.levels@));
    assert(lod.levels@.take(n as int) =~= lod.levels@);
}

/// Of the children that stand for levels, exactly the current one is shown.
pub proof fn lemma_one_level_shows(lod: &Lod, child: usize)
    requires
        lod.wf(),
        child < lod.levels@.len(),
    ensures
        lod.shows_child(child) <==> child == lod.current,
        lod.current < lod.levels@.len(),
{
}

/// Standing still does not make the levels flicker: where the relaxed distances are no farther
/// than the plain ones, the level chosen for a distance is chosen for it again.
pub proof fn lemma_choice_is_stable(lod: &Lod, after: &Lod, distance: Real, relaxed: Seq<Real>)
    requires
        relaxed.len() == lod.levels@.len(),
        !distance.nan(),
        forall|i: int|
            0 <= i < relaxed.len() ==> (#[trigger] relaxed[i]).at_most(lod.levels@[i].distance),
        after.levels == lod.levels,
        after.current == lod.chosen(distance, relaxed),
    ensures
        after.chosen(distance, relaxed) == lod.chosen(distance, relaxed),
{
    let n = lod.levels@.len() as int;
    if n >= 2 {
        lemma_chosen(lod, distance, relaxed);
        lemma_chosen(after, distance, relaxed);
        let a = lod.chosen(distance, relaxed);
        let b = after.chosen(distance, relaxed);
        assert(relaxed.len() == after.levels@.len());
        if b < a {
            let i = b + 1;
            assert(distance.less(after.threshold(relaxed, i)));
            assert(!distance.less(lod.threshold(relaxed, i)));
            assert(after.threshold(relaxed, i) == relaxed[i]);
            assert(relaxed[i].at_most(lod.levels@[i].distance));
        }
        if a < b {
            let i = a + 1;
            assert(distance.less(lod.threshold(relaxed, i)));
            assert(!distance.less(after.threshold(relaxed, i)));
            assert(after.threshold(relaxed, i) == lod.levels@[i].distance);
            assert(relaxed[i].at_most(lod.levels@[i].distance));
        }
    }
}

proof fn lemma_chosen(lod: &Lod, distance: Real, relaxed: Seq<Real>)
    requires
        lod.levels@.len() >= 2,
        !distance.nan(),
    ensures
        0 <= lod.chosen(distance, relaxed) < lod.levels@.len(),
        forall|j: int|
            1 <= j <= lod.chosen(distance, relaxed) ==> !distance.less(
                #[trigger] lod.threshold(relaxed, j),
            ),
        lod.chosen(distance, relaxed) + 1 < lod.levels@.len() ==> distance.less(
            lod.threshold(relaxed, lod.chosen(distance, relaxed) + 1),
        ),
{
    if exists|i: int|
        1 <= i < lod.levels@.len() && distance.less(#[trigger] lod.threshold(relaxed, i)) {
        let i = choose|i: int|
            1 <= i < lod.levels@.len() && distance.less(#[trigger] lod.threshold(relaxed, i));
        lemma_some_first(lod, distance, relaxed, i);
    }
}

proof fn lemma_some_first(lod: &Lod, distance: Real, relaxed: Seq<Real>, i: int)
    requires
        1 <= i < lod.levels@.len(),
        distance.less(lod.threshold(relaxed, i)),
    ensures
        exists|k: int|
            {
                &&& 1 <= k < lod.levels@.len()
                &&& distance.less(#[trigger] lod.threshold(relaxed, k))
                &&& forall|j: int|
                    1 <= j < k ==> !distance.less(#[trigger] lod.threshold(relaxed, j))
            },
    decreases i,
{
    if exists|j: int| 1 <= j < i && distance.less(#[trigger] lod.threshold(relaxed, j)) {
        let j = choose|j: int| 1 <= j < i && distance.less(#[trigger] lod.threshold(relaxed, j));
        lemma_some_first(lod, distance, relaxed, j);
    }
}

/// From where on a level is shown: the level that is shown and those before it are left only closer
/// than their relaxed distance, those behind it are entered at their plain one.
pub open spec fn begins(lod: &Lod, relaxed: Seq<Real>, i: int) -> Real {
    if i <= lod.current {
        relaxed[i]
    } else {
        lod.levels@[i].distance
    }
}

/// The level that is chosen is reached, as are all before it, and the next one is not. Without a
/// second level, or for a distance that is no number, it is the first.
pub proof fn lemma_chosen_level_fits(lod: &Lod, distance: Real, relaxed: Seq<Real>)
    requires
        relaxed.len() == lod.levels@.len(),
    ensures
        lod.levels@.len() < 2 || distance.nan() ==> lod.chosen(distance, relaxed) == 0,
        lod.levels@.len() >= 2 && !distance.nan() ==> {
            let level = lod.chosen(distance, relaxed);
            &&& 0 <= level < lod.levels@.len()
            &&& forall|i: int|
                0 < i <= level ==> !distance.less(#[trigger] begins(lod, relaxed, i))
            &&& level + 1 < lod.levels@.len() ==> distance.less(begins(lod, relaxed, level + 1))
        },
{
    if lod.levels@.len() >= 2 && !distance.nan() {
        lemma_chosen(lod, distance, relaxed);
        let level = lod.chosen(distance, relaxed);
        assert forall|i: int| 0 < i <= level implies !distance.less(
            #[trigger] begins(lod, relaxed, i),
        ) by {
            assert(!distance.less(lod.threshold(relaxed, i)));
        }
    }
}

/// A finite distance is taken without its sign, any other as the largest; a hysteresis is cut to what
/// lies between none and all.
pub proof fn lemma_level_is_meant(distance: Real, hysteresis: Real)
    ensures
        LodLevel::meant(distance, hysteresis).wf(),
        distance.finite() && distance.bits < 0x8000_0000 ==> LodLevel::meant(
            distance,
            hysteresis,
        ).distance == distance,
        distance.finite() && distance.bits >= 0x8000_0000 ==> LodLevel::meant(
            distance,
            hysteresis,
        ).distance.bits == distance.bits - 0x8000_0000,
        !distance.finite() ==> LodLevel::meant(distance, hysteresis).distance.bits == 0x7f7f_ffff,
        Real::zero().at_most(hysteresis) && hysteresis.at_most(Real::one()) ==> LodLevel::meant(
            distance,
            hysteresis,
        ).hysteresis == hysteresis,
        hysteresis.less(Real::zero()) || hysteresis.nan() ==> LodLevel::meant(
            distance,
            hysteresis,
        ).hysteresis.bits == 0,
        Real::one().less(hysteresis) ==> LodLevel::meant(distance, hysteresis).hysteresis.bits
            == 0x3f80_0000,
{
}

proof fn lemma_reached_all(levels: Seq<LodLevel>, distance: Real)
    ensures
        reached(levels, distance) <= levels.len(),
        forall|i: int|
            0 <= i < reached(levels, distance) ==> (#[trigger] levels[i]).distance.at_most(distance),
        reached(levels, distance) < levels.len() ==> !levels[reached(
            levels,
            distance,
        ) as int].distance.at_most(distance),
    decreases levels.len(),
{
    if levels.len() > 0 && levels[0].distance.at_most(distance) {
        let rest = levels.drop_first();
        lemma_reached_all(rest, distance);
        assert forall|i: int| 0 <= i < reached(levels, distance) implies (
        #[trigger] levels[i]).distance.at_most(distance) by {
            if i > 0 {
                assert(rest[i - 1] == levels[i]);
            }
        }
        let n = reached(levels, distance);
        if n < levels.len() {
            assert(rest[n - 1] == levels[n as int]);
        }
    }
}

/// A level that is added comes behind those that begin no farther away and before the others, which
/// stay as they were; which level is shown does not change.
pub proof fn lemma_level_is_added_in_order(after: &Lod, before: &Lod, level: LodLevel)
    requires
        after.added(before, level),
    ensures
        exists|at: int|
            {
                &&& 0 <= at <= before.levels@.len()
                &&& #[trigger] after.levels@.remove(at) == before.levels@
                &&& after.levels@[at] == level
                &&& forall|i: int|
                    0 <= i < at ==> (#[trigger] before.levels@[i]).distance.at_most(level.distance)
                &&& at < before.levels@.len() ==> !before.levels@[at].distance.at_most(
                    level.distance,
                )
            },
        after.levels@.len() == before.levels@.len() + 1,
        after.current == before.current,
        after.auto_update == before.auto_update,
{
    let at = reached(before.levels@, level.distance) as int;
    lemma_reached_all(before.levels@, level.distance);
    assert(after.levels@.remove(at) =~= before.levels@);
}

} // verus!
