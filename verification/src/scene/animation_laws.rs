//! What animations do to the nodes that they drive.

use crate::numbers::{Mat4, Transform};
use crate::pool::Handle;
use crate::scene::animate;
use crate::scene::animate::PoseState;
use crate::scene::graph::Scene;
use crate::scene::node::Node;
use crate::scene::skin::{AnimationPlayer, MorphSample, PoseEntry};
use vstd::prelude::*;

verus! {

/// Entry `k` of a player's pose is meant for a node.
pub open spec fn poses(player: AnimationPlayer, k: int, x: Handle) -> bool {
    &&& 0 <= k < player.pose@.len()
    &&& player.pose@[k].target < player.targets@.len()
    &&& player.targets@[player.pose@[k].target as int] == x
}

/// Sample `k` of a player is meant for one weight of a node.
pub open spec fn weighs(player: AnimationPlayer, k: int, x: Handle, index: int) -> bool {
    &&& 0 <= k < player.morphs@.len()
    &&& player.morphs@[k].target < player.targets@.len()
    &&& player.targets@[player.morphs@[k].target as int] == x
    &&& player.morphs@[k].index == index
}

/// The listed node `i` has a player.
pub open spec fn plays(nodes: Map<Handle, Node>, list: Seq<Handle>, i: int) -> bool {
    0 <= i < list.len() && nodes.contains_key(list[i]) && nodes[list[i]].animator is Some
}

/// The entry that a player has at a place.
pub open spec fn entry(nodes: Map<Handle, Node>, list: Seq<Handle>, i: int, k: int) -> PoseEntry {
    nodes[list[i]].animator->0.pose@[k]
}

/// Entry `k` of player `i` is meant for a node.
pub open spec fn aims(
    nodes: Map<Handle, Node>,
    list: Seq<Handle>,
    i: int,
    k: int,
    x: Handle,
) -> bool {
    plays(nodes, list, i) && poses(nodes[list[i]].animator->0, k, x)
}

/// Place `(i, k)` comes after place `(j, m)`.
pub open spec fn later(i: int, k: int, j: int, m: int) -> bool {
    i > j || i == j && k > m
}

/// No entry of a player from `from` on up to `to` drives a part of a node.
spec fn spares(player: AnimationPlayer, from: int, to: int, x: Handle, part: Part) -> bool {
    forall|m: int| from <= m < to && #[trigger] poses(player, m, x) ==> !drives(player.pose@[m], part)
}

/// What an entry may drive.
pub enum Part {
    Position,
    Rotation,
    Scale,
}

/// An entry says something of a part.
pub open spec fn drives(entry: PoseEntry, part: Part) -> bool {
    match part {
        Part::Position => entry.position is Some,
        Part::Rotation => entry.rotation is Some,
        Part::Scale => entry.scale is Some,
    }
}

/// A part of a node's transform is what an entry says.
pub open spec fn obeys(transform: Transform, entry: PoseEntry, part: Part) -> bool {
    match part {
        Part::Position => Some(transform.position) == entry.position,
        Part::Rotation => Some(transform.rotation) == entry.rotation,
        Part::Scale => Some(transform.scale) == entry.scale,
    }
}

/// A part is the same in two transforms.
pub open spec fn agree(a: Transform, b: Transform, part: Part) -> bool {
    match part {
        Part::Position => a.position == b.position,
        Part::Rotation => a.rotation == b.rotation,
        Part::Scale => a.scale == b.scale,
    }
}

proof fn lemma_entry(s: PoseState, player: AnimationPlayer, k: int, x: Handle, part: Part)
    requires
        s.transforms.contains_key(x),
        x != Handle::none(),
        0 <= k < player.pose@.len(),
    ensures
        ({
            let after = s.with_entry(player, player.pose@[k]);
            &&& after.transforms.dom() == s.transforms.dom()
            &&& after.weights == s.weights
            &&& poses(player, k, x) && drives(player.pose@[k], part) ==> obeys(
                after.transforms[x],
                player.pose@[k],
                part,
            )
            &&& !poses(player, k, x) || !drives(player.pose@[k], part) ==> agree(
                after.transforms[x],
                s.transforms[x],
                part,
            )
        }),
{
    let last = player.pose@[k];
    assert(s.with_entry(player, last).transforms.dom() =~= s.transforms.dom());
}

/// Entries that do not drive a part leave it.
proof fn lemma_entries(
    s: PoseState,
    player: AnimationPlayer,
    from: nat,
    to: nat,
    x: Handle,
    part: Part,
)
    requires
        s.transforms.contains_key(x),
        x != Handle::none(),
        from <= to <= player.pose@.len(),
        spares(player, from as int, to as int, x, part),
    ensures
        s.with_entries(player, from).transforms.dom() == s.transforms.dom(),
        s.with_entries(player, to).transforms.dom() == s.transforms.dom(),
        agree(
            s.with_entries(player, to).transforms[x],
            s.with_entries(player, from).transforms[x],
            part,
        ),
    decreases to,
{
    if from < to {
        lemma_entries(s, player, from, (to - 1) as nat, x, part);
        lemma_entry(s.with_entries(player, (to - 1) as nat), player, to - 1, x, part);
    } else if to > 0 {
        lemma_entries(s, player, (to - 1) as nat, (to - 1) as nat, x, part);
        lemma_entry(s.with_entries(player, (to - 1) as nat), player, to - 1, x, part);
    }
}

proof fn lemma_player_poses(s: PoseState, player: AnimationPlayer, k: int, x: Handle, part: Part)
    requires
        s.transforms.contains_key(x),
        x != Handle::none(),
    ensures
        s.with_player(player).transforms.dom() == s.transforms.dom(),
        poses(player, k, x) && drives(player.pose@[k], part) && spares(
            player,
            k + 1,
            player.pose@.len() as int,
            x,
            part,
        ) ==> obeys(s.with_player(player).transforms[x], player.pose@[k], part),
        spares(player, 0, player.pose@.len() as int, x, part) ==> agree(
            s.with_player(player).transforms[x],
            s.transforms[x],
            part,
        ),
{
    let n = player.pose@.len();
    lemma_samples_keep_places(s.with_entries(player, n), player, player.morphs@.len());
    lemma_entries(s, player, n, n, x, part);
    if spares(player, 0, n as int, x, part) {
        lemma_entries(s, player, 0, n, x, part);
    }
    if poses(player, k, x) && drives(player.pose@[k], part) && spares(
        player,
        k + 1,
        n as int,
        x,
        part,
    ) {
        lemma_entries(s, player, k as nat, k as nat, x, part);
        lemma_entry(s.with_entries(player, k as nat), player, k, x, part);
        lemma_entries(s, player, (k + 1) as nat, n, x, part);
    }
}

proof fn lemma_samples(s: PoseState, player: AnimationPlayer, n: nat, x: Handle, index: int)
    requires
        s.weights.contains_key(x),
        x != Handle::none(),
        0 <= index < s.weights[x].len(),
        n <= player.morphs@.len(),
    ensures
        s.with_samples(player, n).weights.dom() == s.weights.dom(),
        s.with_samples(player, n).transforms == s.transforms,
        ({
            let after = s.with_samples(player, n);
            &&& after.weights[x].len() == s.weights[x].len()
            &&& (forall|m: int|
                #![trigger player.morphs@[m]]
                0 <= m < n ==> !weighs(player, m, x, index)) ==> after.weights[x][index]
                == s.weights[x][index]
            &&& forall|k: int|
                #![trigger player.morphs@[k]]
                0 <= k < n && weighs(player, k, x, index) && (forall|m: int|
                    #![trigger player.morphs@[m]]
                    k < m < n ==> !weighs(player, m, x, index)) ==> after.weights[x][index]
                    == player.morphs@[k].weight
        }),
    decreases n,
{
    if n > 0 {
        lemma_samples(s, player, (n - 1) as nat, x, index);
        let before = s.with_samples(player, (n - 1) as nat);
        let last = player.morphs@[n - 1];
        assert(before.with_sample(player, last).weights.dom() =~= before.weights.dom());
        assert(player.target_of(last.target as int) == x ==> last.target < player.targets@.len());
    }
}

proof fn lemma_samples_keep_places(s: PoseState, player: AnimationPlayer, n: nat)
    requires
        n <= player.morphs@.len(),
    ensures
        s.with_samples(player, n).transforms == s.transforms,
        s.with_samples(player, n).weights.dom() == s.weights.dom(),
    decreases n,
{
    if n > 0 {
        lemma_samples_keep_places(s, player, (n - 1) as nat);
        let before = s.with_samples(player, (n - 1) as nat);
        assert(before.with_sample(player, player.morphs@[n - 1]).weights.dom()
            =~= before.weights.dom());
    }
}

proof fn lemma_entries_keep_weights(s: PoseState, player: AnimationPlayer, n: nat)
    requires
        n <= player.pose@.len(),
    ensures
        s.with_entries(player, n).weights == s.weights,
    decreases n,
{
    if n > 0 {
        lemma_entries_keep_weights(s, player, (n - 1) as nat);
    }
}

/// No entry of the players from `from` on up to `to` drives a part of a node.
pub open spec fn spared(
    nodes: Map<Handle, Node>,
    list: Seq<Handle>,
    from: int,
    to: int,
    x: Handle,
    part: Part,
) -> bool {
    forall|j: int, m: int|
        from <= j < to && #[trigger] aims(nodes, list, j, m, x) ==> !drives(
            entry(nodes, list, j, m),
            part,
        )
}

proof fn lemma_players(
    s: PoseState,
    nodes: Map<Handle, Node>,
    list: Seq<Handle>,
    from: int,
    to: int,
    x: Handle,
    part: Part,
)
    requires
        s.transforms.contains_key(x),
        x != Handle::none(),
        0 <= from <= to <= list.len(),
        spared(nodes, list, from, to, x, part),
    ensures
        s.with_players(nodes, list.take(from)).transforms.dom() == s.transforms.dom(),
        s.with_players(nodes, list.take(to)).transforms.dom() == s.transforms.dom(),
        agree(
            s.with_players(nodes, list.take(to)).transforms[x],
            s.with_players(nodes, list.take(from)).transforms[x],
            part,
        ),
    decreases to,
{
    if to == 0 {
        assert(list.take(0) =~= Seq::<Handle>::empty());
    } else {
        let lower = if from < to {
            from
        } else {
            to - 1
        };
        lemma_players(s, nodes, list, lower, to - 1, x, part);
        assert(list.take(to).drop_last() =~= list.take(to - 1));
        if plays(nodes, list, to - 1) {
            let player = nodes[list[to - 1]].animator->0;
            if from < to {
                assert forall|m: int| #[trigger] poses(player, m, x) implies !drives(
                    player.pose@[m],
                    part,
                ) by {
                    assert(aims(nodes, list, to - 1, m, x));
                }
            }
            lemma_player_poses(s.with_players(nodes, list.take(to - 1)), player, 0, x, part);
        }
    }
}

/// After all players have written their poses, a part of a node that an entry drives is what the
/// last such entry says.
pub proof fn lemma_pose_reaches_its_node(
    before: Map<Handle, Node>,
    list: Seq<Handle>,
    after: Map<Handle, Node>,
    x: Handle,
    i: int,
    k: int,
    part: Part,
)
    requires
        animate::pose_state(after) == animate::pose_state(before).with_players(before, list),
        before.contains_key(x),
        x != Handle::none(),
        aims(before, list, i, k, x),
        drives(entry(before, list, i, k), part),
        forall|j: int, m: int| #[trigger]
            aims(before, list, j, m, x) && later(j, m, i, k) ==> !drives(
                entry(before, list, j, m),
                part,
            ),
    ensures
        after.contains_key(x),
        match part {
            Part::Position => after[x].transform.position == entry(before, list, i, k).position->0,
            Part::Rotation => after[x].transform.rotation == entry(before, list, i, k).rotation->0,
            Part::Scale => after[x].transform.scale == entry(before, list, i, k).scale->0,
        },
{
    let s = animate::pose_state(before);
    let n = list.len() as int;
    let player = before[list[i]].animator->0;
    lemma_players(s, before, list, i, i, x, part);
    assert(list.take(i + 1).drop_last() =~= list.take(i));
    assert forall|m: int| k < m && #[trigger] poses(player, m, x) implies !drives(
        player.pose@[m],
        part,
    ) by {
        assert(aims(before, list, i, m, x));
    }
    lemma_player_poses(s.with_players(before, list.take(i)), player, k, x, part);
    lemma_players(s, before, list, i + 1, n, x, part);
    assert(list.take(n) =~= list);
    assert(animate::pose_state(after).transforms.contains_key(x));
    assert(animate::pose_state(after).transforms[x] == after[x].transform);
}

/// A part of a node that no entry of any player drives is as before.
pub proof fn lemma_undriven_part_stays(
    before: Map<Handle, Node>,
    list: Seq<Handle>,
    after: Map<Handle, Node>,
    x: Handle,
    part: Part,
)
    requires
        animate::pose_state(after) == animate::pose_state(before).with_players(before, list),
        before.contains_key(x),
        x != Handle::none(),
        spared(before, list, 0, list.len() as int, x, part),
    ensures
        after.contains_key(x),
        match part {
            Part::Position => after[x].transform.position == before[x].transform.position,
            Part::Rotation => after[x].transform.rotation == before[x].transform.rotation,
            Part::Scale => after[x].transform.scale == before[x].transform.scale,
        },
{
    let s = animate::pose_state(before);
    lemma_players(s, before, list, 0, list.len() as int, x, part);
    assert(list.take(0) =~= Seq::<Handle>::empty());
    assert(list.take(list.len() as int) =~= list);
    assert(s.transforms[x] == before[x].transform);
    assert(animate::pose_state(after).transforms.contains_key(x));
    assert(animate::pose_state(after).transforms[x] == after[x].transform);
}

proof fn lemma_single_part(
    before: Map<Handle, Node>,
    list: Seq<Handle>,
    after: Map<Handle, Node>,
    x: Handle,
    part: Part,
)
    requires
        animate::pose_state(after) == animate::pose_state(before).with_players(before, list),
        before.contains_key(x),
        x != Handle::none(),
        aims(before, list, 0, 0, x),
        forall|j: int, m: int| #[trigger] aims(before, list, j, m, x) ==> j == 0 && m == 0,
    ensures
        drives(entry(before, list, 0, 0), part) ==> obeys(
            after[x].transform,
            entry(before, list, 0, 0),
            part,
        ),
        !drives(entry(before, list, 0, 0), part) ==> agree(
            after[x].transform,
            before[x].transform,
            part,
        ),
{
    if drives(entry(before, list, 0, 0), part) {
        lemma_pose_reaches_its_node(before, list, after, x, 0, 0, part);
    } else {
        lemma_undriven_part_stays(before, list, after, x, part);
    }
}

/// One player with one entry: exactly the parts that the entry drives are written.
pub proof fn lemma_single_entry_is_written(
    before: Map<Handle, Node>,
    h: Handle,
    after: Map<Handle, Node>,
    x: Handle,
)
    requires
        animate::pose_state(after) == animate::pose_state(before).with_players(before, seq![h]),
        before.contains_key(h),
        before[h].animator is Some,
        before[h].animator->0.pose@.len() == 1,
        before[h].animator->0.pose@[0].target < before[h].animator->0.targets@.len(),
        before[h].animator->0.targets@[before[h].animator->0.pose@[0].target as int] == x,
        before.contains_key(x),
        x != Handle::none(),
    ensures
        ({
            let entry = before[h].animator->0.pose@[0];
            let was = before[x].transform;
            let is = after[x].transform;
            &&& entry.position matches Some(position) ==> is.position == position
            &&& entry.rotation matches Some(rotation) ==> is.rotation == rotation
            &&& entry.scale matches Some(scale) ==> is.scale == scale
            &&& entry.position is None ==> is.position == was.position
            &&& entry.rotation is None ==> is.rotation == was.rotation
            &&& entry.scale is None ==> is.scale == was.scale
        }),
{
    let list = seq![h];
    assert(aims(before, list, 0, 0, x));
    assert forall|j: int, m: int| #[trigger] aims(before, list, j, m, x) implies j == 0 && m == 0 by {}
    lemma_single_part(before, list, after, x, Part::Position);
    lemma_single_part(before, list, after, x, Part::Rotation);
    lemma_single_part(before, list, after, x, Part::Scale);
}

/// The sample that a player has at a place.
pub open spec fn sample(nodes: Map<Handle, Node>, list: Seq<Handle>, i: int, k: int) -> MorphSample {
    nodes[list[i]].animator->0.morphs@[k]
}

/// Sample `k` of player `i` is meant for one weight of a node.
pub open spec fn presses(
    nodes: Map<Handle, Node>,
    list: Seq<Handle>,
    i: int,
    k: int,
    x: Handle,
    index: int,
) -> bool {
    plays(nodes, list, i) && weighs(nodes[list[i]].animator->0, k, x, index)
}

proof fn lemma_players_weigh(
    s: PoseState,
    nodes: Map<Handle, Node>,
    list: Seq<Handle>,
    n: int,
    x: Handle,
    index: int,
)
    requires
        s.weights.contains_key(x),
        x != Handle::none(),
        0 <= index < s.weights[x].len(),
        0 <= n <= list.len(),
    ensures
        ({
            let after = s.with_players(nodes, list.take(n));
            &&& after.weights.dom() == s.weights.dom()
            &&& after.weights[x].len() == s.weights[x].len()
            &&& (forall|j: int, m: int|
                #![trigger presses(nodes, list, j, m, x, index)]
                j < n ==> !presses(nodes, list, j, m, x, index)) ==> after.weights[x][index]
                == s.weights[x][index]
            &&& forall|i: int, k: int|
                #![trigger presses(nodes, list, i, k, x, index)]
                i < n && presses(nodes, list, i, k, x, index) && (forall|j: int, m: int|
                    #![trigger presses(nodes, list, j, m, x, index)]
                    j < n && later(j, m, i, k) ==> !presses(nodes, list, j, m, x, index))
                    ==> after.weights[x][index] == sample(nodes, list, i, k).weight
        }),
    decreases n,
{
    if n == 0 {
        assert(list.take(0) =~= Seq::<Handle>::empty());
    } else {
        lemma_players_weigh(s, nodes, list, n - 1, x, index);
        assert(list.take(n).drop_last() =~= list.take(n - 1));
        let before = s.with_players(nodes, list.take(n - 1));
        let after = s.with_players(nodes, list.take(n));
        if plays(nodes, list, n - 1) {
            let player = nodes[list[n - 1]].animator->0;
            let count = player.pose@.len();
            lemma_entries_keep_weights(before, player, count);
            lemma_samples(
                before.with_entries(player, count),
                player,
                player.morphs@.len(),
                x,
                index,
            );
            assert forall|m: int|
                #![trigger player.morphs@[m]]
                weighs(player, m, x, index) implies presses(nodes, list, n - 1, m, x, index) by {}
            assert forall|m: int| weighs(player, m, x, index) == #[trigger] presses(
                nodes,
                list,
                n - 1,
                m,
                x,
                index,
            ) by {}
        }
    }
}

/// After all players have written their weights, a weight that a node has is what the last sample
/// that is meant for it says, or as before where none is. No weight comes or goes.
pub proof fn lemma_weight_reaches_its_node(
    before: Map<Handle, Node>,
    list: Seq<Handle>,
    after: Map<Handle, Node>,
    x: Handle,
    index: int,
)
    requires
        animate::pose_state(after) == animate::pose_state(before).with_players(before, list),
        before.contains_key(x),
        x != Handle::none(),
        0 <= index < before[x].morph_weights@.len(),
    ensures
        after.contains_key(x),
        after[x].morph_weights@.len() == before[x].morph_weights@.len(),
        (forall|j: int, m: int|
            #![trigger presses(before, list, j, m, x, index)]
            !presses(before, list, j, m, x, index)) ==> after[x].morph_weights@[index]
            == before[x].morph_weights@[index],
        forall|i: int, k: int|
            #![trigger presses(before, list, i, k, x, index)]
            presses(before, list, i, k, x, index) && (forall|j: int, m: int|
                #![trigger presses(before, list, j, m, x, index)]
                later(j, m, i, k) ==> !presses(before, list, j, m, x, index))
                ==> after[x].morph_weights@[index] == sample(before, list, i, k).weight,
{
    let s = animate::pose_state(before);
    assert(s.weights[x] == before[x].morph_weights@);
    lemma_players_weigh(s, before, list, list.len() as int, x, index);
    assert(list.take(list.len() as int) =~= list);
    assert(animate::pose_state(after).weights.contains_key(x));
    assert(animate::pose_state(after).weights[x] == after[x].morph_weights@);
}

/// A skin has, joint for joint, the matrices that were worked out for it; its joints stay, and nothing
/// else of the node or of any other changes.
pub proof fn lemma_matrices_reach_their_skin(
    before: Map<Handle, Node>,
    after: Map<Handle, Node>,
    h: Handle,
    matrices: Seq<Mat4>,
    i: int,
)
    requires
        animate::skin_stored(before, after, h, matrices),
        before.contains_key(h),
        before[h].skin is Some,
        before[h].skin->0.joints@.len() == matrices.len(),
        0 <= i < matrices.len(),
    ensures
        after[h].skin is Some,
        after[h].skin->0.matrices@.len() == matrices.len(),
        after[h].skin->0.matrices@[i] == matrices[i],
        after[h].skin->0.joints == before[h].skin->0.joints,
        after[h].skin->0.inverse_bind == before[h].skin->0.inverse_bind,
        after[h].transform == before[h].transform,
        after[h].mesh == before[h].mesh,
        forall|x: Handle|
            x != h && #[trigger] before.contains_key(x) ==> after[x] == before[x],
{
}

/// A joint pulls from where its node stands in the world; one that is not there does not pull.
pub proof fn lemma_joint_pulls_from_its_node(scene: &Scene, joint: Handle)
    ensures
        scene.nodes@.contains_key(joint) ==> scene.joint_place(joint)
            == scene.nodes@[joint].global_transform,
        !scene.nodes@.contains_key(joint) ==> scene.joint_place(joint) == Mat4::identity(),
{
}

/// Players write poses and weights and nothing else: whatever else a node carries, and its place in
/// the tree, is as before.
pub proof fn lemma_players_write_poses_alone(
    before: Map<Handle, Node>,
    after: Map<Handle, Node>,
    h: Handle,
)
    requires
        animate::only_poses_differ(after, before),
        before.contains_key(h),
    ensures
        after.contains_key(h),
        after[h].name == before[h].name,
        after[h].visible == before[h].visible,
        after[h].parent == before[h].parent,
        after[h].children == before[h].children,
        after[h].mesh == before[h].mesh,
        after[h].material == before[h].material,
        after[h].skin == before[h].skin,
        after[h].animator == before[h].animator,
        after[h].rigid_body == before[h].rigid_body,
        after[h].collider == before[h].collider,
        after[h].joint == before[h].joint,
        after[h].sound == before[h].sound,
        after[h].script == before[h].script,
        after[h].camera == before[h].camera,
        after[h].light == before[h].light,
        after[h].particles == before[h].particles,
        after[h].lod == before[h].lod,
{
    assert(after.dom().contains(h));
}

} // verus!
