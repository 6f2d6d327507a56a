//! What merging, streaming, grounds and decals bring into a scene.

use crate::numbers::{Aabb, Mat4, Real};
use crate::pool::Handle;
use crate::scene::decal;
use crate::scene::decal::{DecalOptions, Piece};
use crate::scene::graph::Scene;
use crate::scene::merge;
use crate::scene::mesh::BlendMode;
use crate::scene::node::Node;
use crate::scene::physics::ColliderShape;
use crate::scene::ragdoll::RagdollLimb;
use crate::scene::streaming;
use crate::scene::streaming::{Cell, CellState, Streaming, StreamingRound};
use crate::scene::terrain;
use crate::scene::terrain::{ChunkMesh, TerrainHit};
use crate::scene::update;
use crate::text;
use crate::tree;
use vstd::prelude::*;

verus! {

/// A node of a scene that was merged into another carries everything that it carried. Where it names
/// other nodes of its scene, it names them by their new handles: the joints of its skin, the bodies
/// that its joint connects, the targets of its player, the limbs of its ragdoll. A joint is to be
/// built anew.
pub proof fn lemma_merged_node_is_the_same(
    after: &Scene,
    before: &Scene,
    source: &Scene,
    names: Map<Handle, Handle>,
    parent: Handle,
    h: Handle,
)
    requires
        after.absorbed(before, source, names, parent),
        source.nodes@.contains_key(h),
    ensures
        ({
            let a = source.nodes@[h];
            let b = after.nodes@[names[h]];
            &&& !before.nodes@.contains_key(names[h])
            &&& b.name == a.name
            &&& b.transform == a.transform
            &&& b.visible == a.visible
            &&& b.receives_decals == a.receives_decals
            &&& b.light_mask == a.light_mask
            &&& b.mesh == a.mesh
            &&& b.material == a.material
            &&& b.morph_weights == a.morph_weights
            &&& b.camera == a.camera
            &&& b.light == a.light
            &&& b.particles == a.particles
            &&& b.rigid_body == a.rigid_body
            &&& b.collider == a.collider
            &&& b.terrain == a.terrain
            &&& b.sound == a.sound
            &&& b.script == a.script
            &&& b.lod == a.lod
            &&& a.skin is Some <==> b.skin is Some
            &&& a.skin is Some ==> {
                &&& b.skin->0.joints@.len() == a.skin->0.joints@.len()
                &&& b.skin->0.inverse_bind == a.skin->0.inverse_bind
                &&& forall|i: int|
                    0 <= i < a.skin->0.joints@.len() && source.nodes@.contains_key(
                        #[trigger] a.skin->0.joints@[i],
                    ) ==> b.skin->0.joints@[i] == names[a.skin->0.joints@[i]]
            }
            &&& a.joint is Some <==> b.joint is Some
            &&& a.joint is Some ==> {
                &&& b.joint->0.desc == a.joint->0.desc
                &&& b.joint->0.dirty
                &&& source.nodes@.contains_key(a.joint->0.body1) ==> b.joint->0.body1
                    == names[a.joint->0.body1]
                &&& source.nodes@.contains_key(a.joint->0.body2) ==> b.joint->0.body2
                    == names[a.joint->0.body2]
            }
            &&& a.animator is Some <==> b.animator is Some
            &&& a.animator is Some ==> {
                &&& b.animator->0.clips == a.animator->0.clips
                &&& b.animator->0.playing == a.animator->0.playing
                &&& b.animator->0.speed == a.animator->0.speed
                &&& b.animator->0.running == a.animator->0.running
                &&& b.animator->0.targets@.len() == a.animator->0.targets@.len()
                &&& forall|i: int|
                    0 <= i < a.animator->0.targets@.len() && source.nodes@.contains_key(
                        #[trigger] a.animator->0.targets@[i],
                    ) ==> b.animator->0.targets@[i] == names[a.animator->0.targets@[i]]
            }
            &&& a.ragdoll is Some <==> b.ragdoll is Some
            &&& a.ragdoll is Some ==> {
                &&& b.ragdoll->0.active == a.ragdoll->0.active
                &&& b.ragdoll->0.character_body_type == a.ragdoll->0.character_body_type
                &&& source.nodes@.contains_key(a.ragdoll->0.character_body)
                    ==> b.ragdoll->0.character_body == names[a.ragdoll->0.character_body]
                &&& source.nodes@.contains_key(a.ragdoll->0.root.bone) ==> b.ragdoll->0.root.bone
                    == names[a.ragdoll->0.root.bone]
                &&& source.nodes@.contains_key(a.ragdoll->0.root.body) ==> b.ragdoll->0.root.body
                    == names[a.ragdoll->0.root.body]
            }
        }),
        forall|x: Handle|
            #[trigger] before.nodes@.contains_key(x) ==> after.nodes@[x].transform
                == before.nodes@[x].transform && after.nodes@[x].name == before.nodes@[x].name
                && after.nodes@[x].parent == before.nodes@[x].parent && after.nodes@[x].mesh
                == before.nodes@[x].mesh && after.nodes@[x].joint == before.nodes@[x].joint,
        after.physics == before.physics,
        after.environment == before.environment,
        after.root == before.root,
{
    assert(names.dom() == source.tree().dom());
    assert forall|x: Handle| #[trigger] source.nodes@.contains_key(x) implies names.contains_key(x) by {
        assert(source.tree().dom().contains(x));
        assert(names.dom().contains(x));
    }
    assert(names.contains_key(h));
    assert(!before.tree().contains_key(names[h]));
    assert(merge::transplanted(after.nodes@[names[h]], source.nodes@[h], names));
    assert forall|x: Handle| #[trigger] before.nodes@.contains_key(x) implies after.nodes@[x].parent
        == before.nodes@[x].parent by {
        assert(after.nodes@[x] == (Node {
            children: after.nodes@[x].children,
            ..before.nodes@[x]
        }));
    }
}

/// Where limbs name nodes, they do so by their new handles, all the way down.
pub proof fn lemma_limbs_are_renamed(
    new: RagdollLimb,
    old: RagdollLimb,
    names: Map<Handle, Handle>,
    i: int,
)
    requires
        merge::limb_renamed(new, old, names),
        0 <= i < old.children@.len(),
    ensures
        new.children@.len() == old.children@.len(),
        merge::limb_renamed(new.children@[i], old.children@[i], names),
        names.contains_key(old.children@[i].bone) ==> new.children@[i].bone
            == names[old.children@[i].bone],
        names.contains_key(old.children@[i].body) ==> new.children@[i].body
            == names[old.children@[i].body],
        !names.contains_key(old.children@[i].bone) ==> new.children@[i].bone == Handle::none(),
{
    assert(merge::limb_renamed(new.children@[i], old.children@[i], names));
}

proof fn lemma_enlisted_all(
    list: Seq<Handle>,
    more: Seq<Handle>,
    nodes: Map<Handle, Node>,
    component: update::Component,
    x: Handle,
)
    ensures
        merge::enlisted_all(list, more, nodes, component).contains(x) <==> list.contains(x) || (
        more.contains(x) && update::carries(nodes, x, component)),
    decreases more.len(),
{
    if more.len() > 0 {
        let front = merge::enlisted_all(list, more.drop_last(), nodes, component);
        let all = merge::enlisted_all(list, more, nodes, component);
        let last = more.last();
        lemma_enlisted_all(list, more.drop_last(), nodes, component, x);
        assert(more[more.len() - 1] == last);
        if more.contains(x) {
            let i = choose|i: int| 0 <= i < more.len() && more[i] == x;
            if i < more.len() - 1 {
                assert(more.drop_last()[i] == x);
            }
        }
        if more.drop_last().contains(x) {
            let i = choose|i: int| 0 <= i < more.drop_last().len() && more.drop_last()[i] == x;
            assert(more[i] == x);
        }
        if front.contains(x) {
            let i = choose|i: int| 0 <= i < front.len() && front[i] == x;
            assert(all[i] == x);
        }
        if all.contains(x) {
            let i = choose|i: int| 0 <= i < all.len() && all[i] == x;
            if i < front.len() {
                assert(front[i] == x);
            }
        }
        if x == last && update::carries(nodes, last, component) && !front.contains(last) {
            assert(all[front.len() as int] == last);
        }
    }
}

/// After merging, the nodes that came in are listed for each physics component that they carry, beside
/// those that were listed before.
pub proof fn lemma_merged_physics_is_listed(
    after: &Scene,
    before: &Scene,
    source: &Scene,
    names: Map<Handle, Handle>,
    parent: Handle,
    h: Handle,
)
    requires
        source.wf(),
        after.absorbed(before, source, names, parent),
        source.nodes@.contains_key(h),
    ensures
        source.nodes@[h].rigid_body is Some ==> after.index.rigid_bodies@.contains(names[h]),
        source.nodes@[h].collider is Some ==> after.index.colliders@.contains(names[h]),
        source.nodes@[h].joint is Some ==> after.index.joints@.contains(names[h]),
        source.nodes@[h].ragdoll is Some ==> after.index.ragdolls@.contains(names[h]),
        forall|x: Handle| #[trigger]
            before.index.rigid_bodies@.contains(x) ==> after.index.rigid_bodies@.contains(x),
        forall|x: Handle| #[trigger]
            before.index.colliders@.contains(x) ==> after.index.colliders@.contains(x),
        forall|x: Handle| #[trigger]
            before.index.joints@.contains(x) ==> after.index.joints@.contains(x),
        forall|x: Handle| #[trigger]
            before.index.ragdolls@.contains(x) ==> after.index.ragdolls@.contains(x),
{
    let order = source.nodes.order();
    let more = tree::renamed_all(names, order);
    source.nodes.lemma_order();
    assert(order.contains(h));
    let i = choose|i: int| 0 <= i < order.len() && order[i] == h;
    assert(source.tree().dom().contains(h));
    assert(names.dom().contains(h));
    assert(more[i] == names[h]);
    assert(more.contains(names[h]));
    assert(merge::transplanted(after.nodes@[names[h]], source.nodes@[h], names));
    let nodes = after.nodes@;
    lemma_enlisted_all(
        before.index.rigid_bodies@,
        more,
        nodes,
        update::Component::RigidBody,
        names[h],
    );
    lemma_enlisted_all(before.index.colliders@, more, nodes, update::Component::Collider, names[h]);
    lemma_enlisted_all(before.index.joints@, more, nodes, update::Component::Joint, names[h]);
    lemma_enlisted_all(before.index.ragdolls@, more, nodes, update::Component::Ragdoll, names[h]);
    assert forall|x: Handle| #[trigger]
        before.index.rigid_bodies@.contains(x) implies after.index.rigid_bodies@.contains(x) by {
        lemma_enlisted_all(
            before.index.rigid_bodies@,
            more,
            nodes,
            update::Component::RigidBody,
            x,
        );
    }
    assert forall|x: Handle| #[trigger]
        before.index.colliders@.contains(x) implies after.index.colliders@.contains(x) by {
        lemma_enlisted_all(before.index.colliders@, more, nodes, update::Component::Collider, x);
    }
    assert forall|x: Handle| #[trigger]
        before.index.joints@.contains(x) implies after.index.joints@.contains(x) by {
        lemma_enlisted_all(before.index.joints@, more, nodes, update::Component::Joint, x);
    }
    assert forall|x: Handle| #[trigger]
        before.index.ragdolls@.contains(x) implies after.index.ragdolls@.contains(x) by {
        lemma_enlisted_all(before.index.ragdolls@, more, nodes, update::Component::Ragdoll, x);
    }
}

/// A cell is found under its name; of several with one name it is the first.
pub proof fn lemma_cell_is_found_by_name(cells: Seq<Cell>, name: Seq<char>, i: int)
    requires
        0 <= i < cells.len(),
        cells[i].name@ == name,
        forall|j: int| 0 <= j < i ==> (#[trigger] cells[j]).name@ != name,
    ensures
        streaming::cell_named(cells, name) == Some(i),
{
    let c = choose|c: int|
        {
            &&& 0 <= c < cells.len()
            &&& (#[trigger] cells[c]).name@ == name
            &&& forall|j: int| 0 <= j < c ==> (#[trigger] cells[j]).name@ != name
        };
    if c < i {
        assert(cells[c].name@ != name);
    }
    if i < c {
        assert(cells[i].name@ != name);
    }
}

proof fn lemma_numbers_where(keep: spec_fn(int) -> bool, n: nat, i: int)
    ensures
        streaming::numbers_where(keep, n).contains(i) <==> 0 <= i < n && keep(i),
        forall|a: int, b: int|
            0 <= a < b < streaming::numbers_where(keep, n).len() ==> #[trigger] streaming::numbers_where(
                keep,
                n,
            )[a] < #[trigger] streaming::numbers_where(keep, n)[b],
        forall|a: int|
            0 <= a < streaming::numbers_where(keep, n).len() ==> 0
                <= #[trigger] streaming::numbers_where(keep, n)[a] < n,
    decreases n,
{
    if n > 0 {
        lemma_numbers_where(keep, (n - 1) as nat, i);
        let front = streaming::numbers_where(keep, (n - 1) as nat);
        let all = streaming::numbers_where(keep, n);
        if front.contains(i) {
            let k = choose|k: int| 0 <= k < front.len() && front[k] == i;
            assert(all[k] == i);
        }
        if all.contains(i) {
            let k = choose|k: int| 0 <= k < all.len() && all[k] == i;
            if k < front.len() {
                assert(front[k] == i);
            }
        }
        if i == n - 1 && keep(i) {
            assert(all[front.len() as int] == i);
        }
    }
}

/// A round unloads exactly the loaded cells that are farther away than the distance to unload at, each
/// once, in the order in which they were added; how many are loaded is how many say so.
pub proof fn lemma_far_cells_are_unloaded(
    cells: Seq<Cell>,
    distances: Seq<Real>,
    unload: Real,
    i: int,
)
    ensures
        streaming::numbers_where(
            streaming::too_far(cells, distances, unload),
            cells.len(),
        ).contains(i) <==> {
            &&& 0 <= i < cells.len()
            &&& cells[i].state == CellState::Loaded
            &&& !distances[i].at_most(unload)
        },
        streaming::numbers_where(streaming::present(cells), cells.len()).contains(i) <==> 0 <= i
            < cells.len() && cells[i].state == CellState::Loaded,
        forall|a: int, b: int|
            0 <= a < b < streaming::numbers_where(
                streaming::too_far(cells, distances, unload),
                cells.len(),
            ).len() ==> #[trigger] streaming::numbers_where(
                streaming::too_far(cells, distances, unload),
                cells.len(),
            )[a] < #[trigger] streaming::numbers_where(
                streaming::too_far(cells, distances, unload),
                cells.len(),
            )[b],
{
    lemma_numbers_where(streaming::too_far(cells, distances, unload), cells.len(), i);
    lemma_numbers_where(streaming::present(cells), cells.len(), i);
}

/// The queue of a round holds exactly the cells that are not loaded, have not failed and are no
/// farther away than the distance to load at, nearest first.
pub proof fn lemma_near_cells_are_queued(
    queue: Seq<usize>,
    cells: Seq<Cell>,
    distances: Seq<Real>,
    load: Real,
    a: int,
    b: int,
)
    requires
        streaming::queued(queue, cells, distances, load, cells.len() as int),
        cells.len() <= usize::MAX,
    ensures
        forall|i: usize| #[trigger]
            queue.contains(i) <==> i < cells.len() && cells[i as int].state == CellState::Unloaded
                && distances[i as int].at_most(load),
        0 <= a < b < queue.len() && distances[queue[a] as int].bits < 0x8000_0000
            && distances[queue[b] as int].bits < 0x8000_0000 ==> distances[queue[a] as int].at_most(
            distances[queue[b] as int],
        ) || distances[queue[b] as int].nan(),
        0 <= a < b < queue.len() ==> queue[a] != queue[b],
{
    if 0 <= a < b < queue.len() {
        assert(streaming::sooner(distances, queue[a] as int, queue[b] as int));
    }
}

/// A cell that was unloaded is where it was and says that it is not loaded.
pub proof fn lemma_emptied_cell_is_unloaded(cell: Cell)
    ensures
        streaming::emptied(cell).state == CellState::Unloaded,
        streaming::emptied(cell).root == Handle::none(),
        streaming::emptied(cell).name == cell.name,
        streaming::emptied(cell).path == cell.path,
        streaming::emptied(cell).center == cell.center,
        streaming::emptied(cell).radius == cell.radius,
{
}

/// A cell for which nothing could be read has failed and leaves the scene as it is. One for which a
/// scene was read is loaded: its root is a node of the scene, named after the cell, under the
/// container, and carries what the root of the scene that was read carried. No other cell changes.
pub proof fn lemma_cell_takes_in_what_was_read(
    after: &Streaming,
    before: &Streaming,
    scene: &Scene,
    scene_after: &Scene,
    index: int,
    loaded: Option<Scene>,
)
    requires
        after.settled(before, scene, scene_after, index, loaded),
        0 <= index < before.cells@.len(),
    ensures
        after.cells@.len() == before.cells@.len(),
        forall|i: int|
            0 <= i < before.cells@.len() && i != index ==> #[trigger] after.cells@[i]
                == before.cells@[i],
        after.cells@[index].name == before.cells@[index].name,
        after.cells@[index].path == before.cells@[index].path,
        after.cells@[index].center == before.cells@[index].center,
        after.cells@[index].radius == before.cells@[index].radius,
        after.load_distance == before.load_distance,
        after.unload_distance == before.unload_distance,
        after.max_loads_per_update == before.max_loads_per_update,
        loaded is None ==> {
            &&& *scene_after == *scene
            &&& after.cells@[index].state == CellState::Failed
            &&& after.container == before.container
        },
        loaded matches Some(source) ==> {
            let root = after.cells@[index].root;
            &&& after.cells@[index].state == CellState::Loaded
            &&& source.nodes@.contains_key(source.root) ==> {
                &&& scene_after.nodes@.contains_key(root)
                &&& scene_after.nodes@[root].parent == after.container
                &&& scene_after.nodes@[root].name@ == "Cell:"@ + before.cells@[index].name@
                &&& scene_after.nodes@[root].transform == source.nodes@[source.root].transform
                &&& scene_after.nodes@[root].mesh == source.nodes@[source.root].mesh
            }
            &&& scene.nodes@.contains_key(before.container) ==> after.container == before.container
        },
{
    if loaded is Some {
        let source = loaded->0;
        let root = after.cells@[index].root;
        let middle = choose|middle: Scene|
            {
                &&& #[trigger] middle.contained(scene, before.container, after.container)
                &&& scene_after.joined(
                    &middle,
                    &source,
                    after.container,
                    root,
                    before.cells@[index].name@,
                )
            };
        let (grafted, names) = choose|grafted: Scene, names: Map<Handle, Handle>|
            {
                &&& #[trigger] grafted.absorbed(&middle, &source, names, after.container)
                &&& names.contains_key(source.root)
                &&& root == names[source.root]
                &&& scene_after.nodes@ == grafted.nodes@.insert(
                    root,
                    Node { name: scene_after.nodes@[root].name, ..grafted.nodes@[root] },
                )
                &&& scene_after.nodes@[root].name@ == "Cell:"@ + before.cells@[index].name@
                &&& scene_after.index == grafted.index
                &&& scene_after.physics == grafted.physics
                &&& scene_after.rest_same(&grafted)
            };
        if source.nodes@.contains_key(source.root) {
            lemma_merged_node_is_the_same(
                &grafted,
                &middle,
                &source,
                names,
                after.container,
                source.root,
            );
            assert(source.tree().contains_key(source.root));
            assert(grafted.tree()[names[source.root]].parent == after.container);
            assert(grafted.tree().contains_key(names[source.root]));
        }
    }
}

/// A container that was made for the cells hangs under the root, with its name and nothing else.
pub proof fn lemma_container_is_made(
    after: &Scene,
    before: &Scene,
    old_container: Handle,
    container: Handle,
)
    requires
        after.contained(before, old_container, container),
    ensures
        before.nodes@.contains_key(old_container) ==> container == old_container && *after
            == *before,
        !before.nodes@.contains_key(old_container) ==> {
            &&& after.nodes@.contains_key(container)
            &&& after.nodes@[container].name@ == "Streaming"@
            &&& after.nodes@[container].parent == before.root
            &&& after.nodes@[container].mesh is None
            &&& after.nodes@[container].visible
        },
{
    if !before.nodes@.contains_key(old_container) {
        let node = choose|node: Node| #[trigger]
            after.gained(before, container, node, before.root) && node.bare("Streaming"@);
        assert(after.nodes@.dom().contains(container));
    }
}

/// The child that stands for a chunk is the first one of the chunk's name.
proof fn lemma_first_named_child(
    nodes: Map<Handle, Node>,
    list: Seq<Handle>,
    name: Seq<char>,
    k: int,
)
    requires
        0 <= k <= list.len(),
        k < list.len() ==> nodes.contains_key(list[k]) && nodes[list[k]].name@ == name,
        forall|j: int|
            0 <= j < k ==> !nodes.contains_key(#[trigger] list[j]) || nodes[list[j]].name@ != name,
    ensures
        terrain::named_child(nodes, list, name) == if k < list.len() {
            Some(list[k])
        } else {
            None
        },
    decreases list.len(),
{
    if k > 0 {
        let rest = list.drop_first();
        assert(!nodes.contains_key(list[0]) || nodes[list[0]].name@ != name);
        if k < list.len() {
            assert(rest[k - 1] == list[k]);
        }
        assert forall|j: int| 0 <= j < k - 1 implies !nodes.contains_key(#[trigger] rest[j])
            || nodes[rest[j]].name@ != name by {
            assert(rest[j] == list[j + 1]);
        }
        lemma_first_named_child(nodes, rest, name, k - 1);
    }
}

/// A chunk that was built anew gives its mesh to the first child of the ground that has its name, with
/// the weights that the mesh starts with, and nothing else of that child or of the scene changes.
/// Where no child has the name, one is added under the ground, with the ground's material.
pub proof fn lemma_chunk_reaches_its_child(
    before: &Scene,
    after: &Scene,
    handle: Handle,
    chunk: ChunkMesh,
    touched: Handle,
    k: int,
)
    requires
        terrain::chunk_synced(before, after, before, handle, chunk, touched),
        before.nodes@.contains_key(handle),
        0 <= k <= before.nodes@[handle].children@.len(),
        k < before.nodes@[handle].children@.len() ==> before.nodes@.contains_key(
            before.nodes@[handle].children@[k],
        ) && before.nodes@[before.nodes@[handle].children@[k]].name@ == "__chunk"@ + text::decimal(
            chunk.index as nat,
        ),
        forall|j: int|
            0 <= j < k ==> !before.nodes@.contains_key(
                #[trigger] before.nodes@[handle].children@[j],
            ) || before.nodes@[before.nodes@[handle].children@[j]].name@ != "__chunk"@
                + text::decimal(chunk.index as nat),
    ensures
        after.nodes@.contains_key(touched),
        after.nodes@[touched].mesh == Some(chunk.mesh),
        after.nodes@[touched].morph_weights@.len() == chunk.mesh.data.morph_targets@.len(),
        after.nodes@[touched].name@ == "__chunk"@ + text::decimal(chunk.index as nat),
        k < before.nodes@[handle].children@.len() ==> {
            &&& touched == before.nodes@[handle].children@[k]
            &&& after.nodes@.dom() == before.nodes@.dom()
            &&& after.nodes@[touched].transform == before.nodes@[touched].transform
            &&& after.nodes@[touched].material == before.nodes@[touched].material
            &&& after.nodes@[touched].visible == before.nodes@[touched].visible
            &&& after.nodes@[touched].parent == before.nodes@[touched].parent
            &&& forall|x: Handle|
                x != touched && #[trigger] before.nodes@.contains_key(x) ==> after.nodes@[x]
                    == before.nodes@[x]
        },
        k == before.nodes@[handle].children@.len() ==> {
            &&& after.nodes@[touched].material == before.nodes@[handle].material
            &&& after.nodes@[touched].parent == handle
            &&& after.nodes@[touched].visible
        },
{
    let list = before.nodes@[handle].children@;
    lemma_first_named_child(before.nodes@, list, terrain::chunk_name(chunk.index), k);
    if k < list.len() {
        assert(after.nodes@.dom() =~= before.nodes@.dom());
    } else {
        let node = choose|node: Node|
            {
                &&& #[trigger] after.gained(before, touched, node, before.or_root(handle))
                &&& terrain::chunk_node(
                    node,
                    chunk,
                    terrain::material_of(before.nodes@, handle),
                )
            };
        assert(after.nodes@.dom().contains(touched));
    }
}

/// The ground that a ray hits first is one that it hits, and none that it hits is nearer; of those
/// that are as near it is the first.
pub proof fn lemma_nearest_ground_is_hit(scene: &Scene, hits: Seq<Option<TerrainHit>>, n: nat)
    requires
        n <= hits.len(),
        forall|i: int|
            0 <= i < hits.len() && (#[trigger] hits[i]) is Some ==> !hits[i]->0.distance.nan(),
    ensures
        ({
            let hit_at = |i: int|
                hits[i] is Some && scene.nodes@.contains_key(scene.index.terrains@[i])
                    && scene.nodes@[scene.index.terrains@[i]].terrain is Some;
            match scene.nearest_hit(hits, n) {
                Some(i) => {
                    &&& 0 <= i < n
                    &&& hit_at(i)
                    &&& forall|j: int|
                        #![trigger hits[j]]
                        0 <= j < n && hit_at(j) ==> hits[i]->0.distance.at_most(hits[j]->0.distance)
                            && (j < i ==> hits[i]->0.distance.less(hits[j]->0.distance))
                },
                None => forall|j: int| #![trigger hits[j]] 0 <= j < n ==> !hit_at(j),
            }
        }),
    decreases n,
{
    if n > 0 {
        lemma_nearest_ground_is_hit(scene, hits, (n - 1) as nat);
        assert(hits[n - 1] is Some || hits[n - 1] is None);
    }
}

/// A decal sticks to a node exactly if it is there and shown, has no skin, takes decals, touches the
/// decal's box and hangs under the node that was asked for, if one was.
pub proof fn lemma_decal_sticks_to(scene: &Scene, bounds: Aabb, root: Option<Handle>, h: Handle)
    ensures
        (scene.receives(bounds, root))(h) <==> {
            &&& scene.nodes@.contains_key(h)
            &&& scene.nodes@[h].global_visible
            &&& scene.nodes@[h].skin is None
            &&& scene.nodes@[h].receives_decals
            &&& scene.nodes@[h].global_aabb.overlaps(bounds)
            &&& root is Some ==> scene.nodes@.contains_key(root->0) && tree::below(
                scene.tree(),
                root->0,
                h,
            )
        },
{
}

/// The node of a decal has the name and the material that were asked for, blended, takes no decals,
/// and its mesh is made here.
pub proof fn lemma_decal_is_made_as_asked(
    node: Node,
    options: &DecalOptions,
    pieces: Seq<Option<Piece>>,
    id: u128,
)
    requires
        decal::stuck(node, options, pieces, id),
    ensures
        node.name@ == options.name@,
        node.mesh is Some,
        node.mesh->0.data.id == id,
        node.mesh->0.data.source is None,
        node.mesh->0.data.vertices@ == decal::all_vertices(pieces),
        node.mesh->0.data.indices@ == decal::all_indices(pieces),
        node.material is Some,
        node.material->0.blend_mode == BlendMode::Alpha,
        node.material->0.key().0 == options.material.key().0,
        !node.receives_decals,
        node.visible,
        node.skin is None,
        node.collider is None,
{
}

/// Joining keeps every triangle: each corner of a piece is a corner of the whole, in order, and names
/// the vertex that it named.
pub proof fn lemma_joined_pieces_keep_their_corners(pieces: Seq<Option<Piece>>, p: int, c: int) -> (at:
    int)
    requires
        decal::joinable(pieces),
        0 <= p < pieces.len(),
        pieces[p] is Some,
        0 <= c < pieces[p]->0.indices@.len(),
    ensures
        0 <= at < decal::all_indices(pieces).len(),
        decal::all_indices(pieces)[at] < decal::all_vertices(pieces).len(),
        decal::all_vertices(pieces)[decal::all_indices(pieces)[at] as int]
            == pieces[p]->0.vertices@[pieces[p]->0.indices@[c] as int],
        at == corners_before(pieces, p) + c,
    decreases pieces.len(),
{
    let front = pieces.drop_last();
    let corners = decal::all_indices(front);
    let vertices = decal::all_vertices(front);
    assert forall|i: int| 0 <= i < front.len() implies (#[trigger] front[i] matches Some(piece)
        ==> piece.wf()) by {
        assert(front[i] == pieces[i]);
    }
    if p < front.len() {
        assert(front[p] == pieces[p]);
        lemma_corners_before(pieces, p);
        let at = lemma_joined_pieces_keep_their_corners(front, p, c);
        assert(decal::all_indices(pieces)[at] == corners[at]);
        at
    } else {
        lemma_corners_before_all(front);
        lemma_corners_before(pieces, p);
        assert(pieces.last() == pieces[p]);
        let piece = pieces[p]->0;
        let at = corners.len() + c;
        assert(piece.indices@[c] < piece.vertices@.len());
        assert(decal::all_indices(pieces)[at] == (piece.indices@[c] + vertices.len()) as u32);
        at
    }
}

/// How many corners the pieces before one have.
pub open spec fn corners_before(pieces: Seq<Option<Piece>>, p: int) -> int
    decreases p,
{
    if p <= 0 {
        0
    } else {
        corners_before(pieces, p - 1) + if pieces[p - 1] is Some {
            pieces[p - 1]->0.indices@.len() as int
        } else {
            0
        }
    }
}

proof fn lemma_corners_before(pieces: Seq<Option<Piece>>, p: int)
    requires
        0 <= p < pieces.len(),
    ensures
        corners_before(pieces.drop_last(), p) == corners_before(pieces, p),
    decreases p,
{
    if p > 0 {
        lemma_corners_before(pieces, p - 1);
        assert(pieces.drop_last()[p - 1] == pieces[p - 1]);
    }
}

proof fn lemma_corners_before_all(pieces: Seq<Option<Piece>>)
    ensures
        corners_before(pieces, pieces.len() as int) == decal::all_indices(pieces).len(),
    decreases pieces.len(),
{
    if pieces.len() > 0 {
        lemma_corners_before_all(pieces.drop_last());
        let n = pieces.len() - 1;
        lemma_corners_before(pieces, n);
        assert(pieces.last() == pieces[n]);
    }
}

/// A chunk that came too late for the update stands where it was worked out, is shown exactly if its
/// ground is shown and it is visible, and is drawn exactly if it is shown and has a mesh, or was
/// drawn before.
pub proof fn lemma_late_chunk_is_shown(
    before: &Scene,
    after: &Scene,
    parent: Handle,
    child: Handle,
    global: Mat4,
)
    requires
        terrain::adopted(before, after, parent, child, global),
        before.nodes@.contains_key(parent),
        before.nodes@.contains_key(child),
    ensures
        after.nodes@[child].global_transform == global,
        after.nodes@[child].global_visible == (before.nodes@[parent].global_visible
            && before.nodes@[child].visible),
        after.nodes@[child].transform == before.nodes@[child].transform,
        after.nodes@[child].visible == before.nodes@[child].visible,
        after.nodes@[child].mesh == before.nodes@[child].mesh,
        after.index.drawables@.contains(child) <==> before.index.drawables@.contains(child) || (
        before.nodes@[parent].global_visible && before.nodes@[child].visible
            && before.nodes@[child].mesh is Some),
        forall|x: Handle|
            x != child && #[trigger] before.nodes@.contains_key(x) ==> after.nodes@[x]
                == before.nodes@[x],
{
    let list = before.index.drawables@;
    let belongs = before.nodes@[parent].global_visible && before.nodes@[child].visible
        && before.nodes@[child].mesh is Some;
    if belongs && !list.contains(child) {
        assert(after.index.drawables@[list.len() as int] == child);
    }
}

/// The collider of a ground is its own grid of heights, at its own scale, moved to where the ground
/// begins and not turned; it is solid, and the rest of the node stays.
pub proof fn lemma_ground_is_its_own_collider(
    before: Map<Handle, Node>,
    after: Map<Handle, Node>,
    h: Handle,
)
    requires
        terrain::grounded(before, after, h),
        before.contains_key(h),
        before[h].terrain is Some,
    ensures
        after[h].collider is Some,
        after[h].collider->0.desc.shape matches ColliderShape::Heightfield {
            rows,
            cols,
            heights,
            scale,
        } && rows == before[h].terrain->0.rows && cols == before[h].terrain->0.cols && heights
            == before[h].terrain->0.heights && scale == before[h].terrain->0.scale,
        after[h].collider->0.desc.position == before[h].terrain->0.collider_offset,
        after[h].collider->0.desc.rotation.w.bits == 0x3f80_0000,
        after[h].collider->0.desc.rotation.x.bits == 0,
        after[h].collider->0.desc.rotation.y.bits == 0,
        after[h].collider->0.desc.rotation.z.bits == 0,
        !after[h].collider->0.desc.is_sensor,
        after[h].collider->0.native is None,
        after[h].terrain == before[h].terrain,
        after[h].transform == before[h].transform,
        forall|x: Handle|
            x != h && #[trigger] before.contains_key(x) ==> after[x] == before[x],
{
}

/// A round loads no more cells than it may: once that many are loaded, what is left of the queue is
/// put off and counted. Until then the cells come in the order of the queue, each once.
pub proof fn lemma_round_keeps_to_its_budget(
    before: StreamingRound,
    after: StreamingRound,
    budget: usize,
    next: Option<usize>,
)
    requires
        streaming::went_on(before, after, budget, next),
        before.next <= before.queue@.len(),
    ensures
        next is Some ==> {
            &&& before.report.loaded@.len() < budget
            &&& before.next < before.queue@.len()
            &&& next->0 == before.queue@[before.next as int]
            &&& after.next == before.next + 1
            &&& after.report.deferred == before.report.deferred
        },
        next is None ==> after.next == before.queue@.len() && after.report.deferred
            == before.report.deferred + (before.queue@.len() - before.next),
        before.report.loaded@.len() < budget && before.next < before.queue@.len() ==> next is Some,
        after.queue == before.queue,
        after.report.loaded == before.report.loaded,
        after.report.unloaded == before.report.unloaded,
{
}

/// As a round begins, a loaded cell that is farther away than the distance to unload at is unloaded
/// and any other stays as it is; queued is exactly what is not loaded then, has not failed, and is no
/// farther away than the distance to load at. Where that is no larger than the distance to unload at, a
/// cell that was loaded is not queued.
pub proof fn lemma_round_goes_by_the_distances(
    before: Streaming,
    after: Streaming,
    distances: Seq<Real>,
    queue: Seq<usize>,
    i: usize,
)
    requires
        streaming::round_began(before, after, distances, queue),
        i < before.cells@.len(),
    ensures
        ({
            let was = before.cells@[i as int];
            let now = after.cells@[i as int];
            let far = !distances[i as int].at_most(before.unload_distance);
            let near = distances[i as int].at_most(before.load_distance);
            &&& was.state == CellState::Loaded && far ==> now.state == CellState::Unloaded
                && now.root == Handle::none()
            &&& was.state == CellState::Loaded && !far ==> now == was
            &&& was.state != CellState::Loaded ==> now == was
            &&& now.name == was.name
            &&& now.center == was.center
            &&& queue.contains(i) <==> now.state == CellState::Unloaded && near
            &&& was.state == CellState::Loaded && before.load_distance.at_most(
                before.unload_distance,
            ) ==> !queue.contains(i)
        }),
{
}

} // verus!
