//! The shape of a scene as a mathematical tree: who hangs under whom, and in which order.

use crate::pool::Handle;
use vstd::prelude::*;

verus! {

/// What one node knows of its place in the tree.
#[verifier::ext_equal]
pub struct Links {
    pub parent: Handle,
    pub children: Seq<Handle>,
}

/// All nodes with their places.
pub type Tree = Map<Handle, Links>;

/// A ranking proves that going down always ends: children rank below their parent, and no rank
/// reaches `bound`.
pub open spec fn ranked(t: Tree, rank: Map<Handle, nat>, bound: nat) -> bool {
    &&& forall|h: Handle| #[trigger] t.contains_key(h) ==> rank[h] < bound
    &&& forall|h: Handle, i: int|
        t.contains_key(h) && 0 <= i < t[h].children.len() ==> rank[#[trigger] t[h].children[i]]
            < rank[h]
}

/// A tree hanging from `root`: parents and children agree, nobody hangs in two places, and there
/// are no cycles.
pub open spec fn tree_wf(t: Tree, root: Handle) -> bool {
    &&& t.contains_key(root)
    &&& t[root].parent == Handle::none()
    &&& !t.contains_key(Handle::none())
    &&& forall|h: Handle|
        #![trigger t[h].parent]
        t.contains_key(h) && h != root ==> t.contains_key(t[h].parent)
            && t[t[h].parent].children.contains(h)
    &&& forall|h: Handle, i: int|
        t.contains_key(h) && 0 <= i < t[h].children.len() ==> t.contains_key(
            #[trigger] t[h].children[i],
        ) && t[t[h].children[i]].parent == h
    &&& forall|h: Handle| #[trigger] t.contains_key(h) ==> t[h].children.no_duplicates()
    &&& exists|rank: Map<Handle, nat>, bound: nat| ranked(t, rank, bound)
}

spec fn walk(t: Tree, h: Handle, fuel: nat) -> Seq<Handle>
    decreases fuel, 0nat,
{
    if fuel == 0 {
        Seq::empty()
    } else {
        seq![h] + walk_all(t, t[h].children, (fuel - 1) as nat)
    }
}

spec fn walk_all(t: Tree, list: Seq<Handle>, fuel: nat) -> Seq<Handle>
    decreases fuel, list.len() + 1,
{
    if list.len() == 0 {
        Seq::empty()
    } else {
        walk(t, list[0], fuel) + walk_all(t, list.drop_first(), fuel)
    }
}

spec fn depth_bound(t: Tree) -> nat {
    (choose|p: (Map<Handle, nat>, nat)| #[trigger] ranked(t, p.0, p.1)).1
}

/// The subtree of `h` in the order parent, then children from first to last.
pub closed spec fn preorder(t: Tree, h: Handle) -> Seq<Handle> {
    walk(t, h, depth_bound(t))
}

/// The subtrees of the listed nodes, one after the other.
pub open spec fn preorder_all(t: Tree, list: Seq<Handle>) -> Seq<Handle>
    decreases list.len(),
{
    if list.len() == 0 {
        Seq::empty()
    } else {
        preorder(t, list[0]) + preorder_all(t, list.drop_first())
    }
}

/// The subtrees of the nodes on a stack, top first.
pub open spec fn preorder_stack(t: Tree, stack: Seq<Handle>) -> Seq<Handle>
    decreases stack.len(),
{
    if stack.len() == 0 {
        Seq::empty()
    } else {
        preorder(t, stack.last()) + preorder_stack(t, stack.drop_last())
    }
}

/// Whether `x` is `h` or hangs somewhere under it.
pub open spec fn below(t: Tree, h: Handle, x: Handle) -> bool {
    preorder(t, h).contains(x)
}

/// The node `n` steps above `h`.
pub open spec fn ancestor(t: Tree, h: Handle, n: nat) -> Handle
    decreases n,
{
    if n == 0 {
        h
    } else {
        t[ancestor(t, h, (n - 1) as nat)].parent
    }
}

proof fn lemma_fuel(t: Tree, rank: Map<Handle, nat>, bound: nat, h: Handle, f: nat, g: nat)
    requires
        ranked(t, rank, bound),
        forall|h: Handle, i: int|
            t.contains_key(h) && 0 <= i < t[h].children.len() ==> t.contains_key(
                #[trigger] t[h].children[i],
            ),
        t.contains_key(h),
        rank[h] < f,
        rank[h] < g,
    ensures
        walk(t, h, f) == walk(t, h, g),
    decreases rank[h] + 1, 0nat,
{
    lemma_fuel_all(t, rank, bound, t[h].children, (f - 1) as nat, (g - 1) as nat, rank[h]);
}

proof fn lemma_fuel_all(
    t: Tree,
    rank: Map<Handle, nat>,
    bound: nat,
    list: Seq<Handle>,
    f: nat,
    g: nat,
    top: nat,
)
    requires
        ranked(t, rank, bound),
        forall|h: Handle, i: int|
            t.contains_key(h) && 0 <= i < t[h].children.len() ==> t.contains_key(
                #[trigger] t[h].children[i],
            ),
        forall|i: int|
            0 <= i < list.len() ==> t.contains_key(#[trigger] list[i]) && rank[list[i]] < top,
        top <= f,
        top <= g,
    ensures
        walk_all(t, list, f) == walk_all(t, list, g),
    decreases top, list.len() + 1,
{
    if list.len() > 0 {
        assert(t.contains_key(list[0]));
        lemma_fuel(t, rank, bound, list[0], f, g);
        lemma_fuel_all(t, rank, bound, list.drop_first(), f, g, top);
    }
}

proof fn lemma_walk_all_is_preorder_all(t: Tree, list: Seq<Handle>)
    ensures
        walk_all(t, list, depth_bound(t)) == preorder_all(t, list),
    decreases list.len(),
{
    if list.len() > 0 {
        lemma_walk_all_is_preorder_all(t, list.drop_first());
    }
}

/// A node with its subtree is the node, then the subtrees of its children.
pub proof fn lemma_preorder_unfold(t: Tree, root: Handle, h: Handle)
    requires
        tree_wf(t, root),
        t.contains_key(h),
    ensures
        preorder(t, h) == seq![h] + preorder_all(t, t[h].children),
{
    let (rank0, bound0) = choose|rank: Map<Handle, nat>, bound: nat| ranked(t, rank, bound);
    assert(ranked(t, (rank0, bound0).0, (rank0, bound0).1));
    let p = choose|p: (Map<Handle, nat>, nat)| #[trigger] ranked(t, p.0, p.1);
    let (rank, bound) = p;
    lemma_fuel_all(t, rank, bound, t[h].children, (bound - 1) as nat, bound, rank[h]);
    lemma_walk_all_is_preorder_all(t, t[h].children);
}

/// Membership in a list of subtrees is membership in one of them.
pub proof fn lemma_preorder_all_contains(t: Tree, list: Seq<Handle>, x: Handle)
    ensures
        preorder_all(t, list).contains(x) <==> exists|i: int|
            0 <= i < list.len() && below(t, #[trigger] list[i], x),
    decreases list.len(),
{
    if list.len() > 0 {
        let head = preorder(t, list[0]);
        let rest = list.drop_first();
        let tail = preorder_all(t, rest);
        lemma_preorder_all_contains(t, rest, x);
        if (head + tail).contains(x) {
            let k = choose|k: int| 0 <= k < (head + tail).len() && (head + tail)[k] == x;
            if k < head.len() {
                assert(head[k] == x);
                assert(below(t, list[0], x));
            } else {
                assert(tail[k - head.len()] == x);
                let i = choose|i: int| 0 <= i < rest.len() && below(t, #[trigger] rest[i], x);
                assert(list[i + 1] == rest[i]);
            }
        }
        if exists|i: int| 0 <= i < list.len() && below(t, #[trigger] list[i], x) {
            let i = choose|i: int| 0 <= i < list.len() && below(t, #[trigger] list[i], x);
            if i == 0 {
                let k = choose|k: int| 0 <= k < head.len() && head[k] == x;
                assert((head + tail)[k] == x);
            } else {
                assert(rest[i - 1] == list[i]);
                let k = choose|k: int| 0 <= k < tail.len() && tail[k] == x;
                assert((head + tail)[head.len() + k] == x);
            }
        }
    }
}

/// `x` is below `h` exactly when it is `h` or below one of `h`'s children.
pub proof fn lemma_below_unfold(t: Tree, root: Handle, h: Handle, x: Handle)
    requires
        tree_wf(t, root),
        t.contains_key(h),
    ensures
        below(t, h, x) <==> x == h || exists|i: int|
            0 <= i < t[h].children.len() && below(t, #[trigger] t[h].children[i], x),
{
    lemma_preorder_unfold(t, root, h);
    lemma_preorder_all_contains(t, t[h].children, x);
    let rest = preorder_all(t, t[h].children);
    let all = seq![h] + rest;
    if all.contains(x) {
        let k = choose|k: int| 0 <= k < all.len() && all[k] == x;
        if k > 0 {
            assert(rest[k - 1] == x);
        }
    }
    if rest.contains(x) {
        let k = choose|k: int| 0 <= k < rest.len() && rest[k] == x;
        assert(all[k + 1] == x);
    }
    assert(all[0] == h);
}

/// What is below a node is in the tree, ranks no higher than the node, and is reached through its
/// parent.
proof fn lemma_below_facts(
    t: Tree,
    root: Handle,
    rank: Map<Handle, nat>,
    bound: nat,
    h: Handle,
    x: Handle,
)
    requires
        tree_wf(t, root),
        ranked(t, rank, bound),
        t.contains_key(h),
        below(t, h, x),
    ensures
        t.contains_key(x),
        rank[x] <= rank[h],
        x != h ==> rank[x] < rank[h] && x != root && below(t, h, t[x].parent),
    decreases rank[h],
{
    lemma_below_unfold(t, root, h, x);
    if x != h {
        let i = choose|i: int|
            0 <= i < t[h].children.len() && below(t, #[trigger] t[h].children[i], x);
        let c = t[h].children[i];
        lemma_below_facts(t, root, rank, bound, c, x);
        if x == c {
            lemma_below_unfold(t, root, h, h);
        } else {
            lemma_below_unfold(t, root, h, t[x].parent);
            assert(below(t, t[h].children[i], t[x].parent));
        }
    }
}

/// The children of what is below a node are below it too.
proof fn lemma_below_child(
    t: Tree,
    root: Handle,
    rank: Map<Handle, nat>,
    bound: nat,
    h: Handle,
    p: Handle,
    k: int,
)
    requires
        tree_wf(t, root),
        ranked(t, rank, bound),
        t.contains_key(h),
        below(t, h, p),
        t.contains_key(p),
        0 <= k < t[p].children.len(),
    ensures
        below(t, h, t[p].children[k]),
    decreases rank[h],
{
    lemma_below_unfold(t, root, h, p);
    let x = t[p].children[k];
    if p == h {
        lemma_below_unfold(t, root, x, x);
        lemma_below_unfold(t, root, h, x);
        assert(below(t, t[h].children[k], x));
    } else {
        let i = choose|i: int|
            0 <= i < t[h].children.len() && below(t, #[trigger] t[h].children[i], p);
        lemma_below_child(t, root, rank, bound, t[h].children[i], p, k);
        lemma_below_unfold(t, root, h, x);
        assert(below(t, t[h].children[i], x));
    }
}

proof fn lemma_ranking(t: Tree, root: Handle) -> (result: (Map<Handle, nat>, nat))
    requires
        tree_wf(t, root),
    ensures
        ranked(t, result.0, result.1),
{
    choose|rank: Map<Handle, nat>, bound: nat| ranked(t, rank, bound)
}

/// No node hangs under itself: its children's subtrees do not hold it.
pub proof fn lemma_no_cycles(t: Tree, root: Handle, h: Handle, k: int)
    requires
        tree_wf(t, root),
        t.contains_key(h),
        0 <= k < t[h].children.len(),
    ensures
        !below(t, t[h].children[k], h),
{
    let (rank, bound) = lemma_ranking(t, root);
    assert(t.contains_key(t[h].children[k]));
    if below(t, t[h].children[k], h) {
        lemma_below_facts(t, root, rank, bound, t[h].children[k], h);
    }
}

/// Every node is below itself, and nothing outside the tree is below anything.
pub proof fn lemma_below_self(t: Tree, root: Handle, h: Handle)
    requires
        tree_wf(t, root),
        t.contains_key(h),
    ensures
        below(t, h, h),
        forall|x: Handle| #[trigger] below(t, h, x) ==> t.contains_key(x),
{
    let (rank, bound) = lemma_ranking(t, root);
    lemma_below_unfold(t, root, h, h);
    assert forall|x: Handle| #[trigger] below(t, h, x) implies t.contains_key(x) by {
        lemma_below_facts(t, root, rank, bound, h, x);
    }
}

/// Another node is below `h` exactly when its parent is.
pub proof fn lemma_below_parent(t: Tree, root: Handle, h: Handle, x: Handle)
    requires
        tree_wf(t, root),
        t.contains_key(h),
        t.contains_key(x),
        x != h,
    ensures
        x == root ==> !below(t, h, x),
        x != root ==> (below(t, h, x) <==> below(t, h, t[x].parent)),
{
    let (rank, bound) = lemma_ranking(t, root);
    if below(t, h, x) {
        lemma_below_facts(t, root, rank, bound, h, x);
    }
    if x != root && below(t, h, t[x].parent) {
        let p = t[x].parent;
        let k = choose|k: int| 0 <= k < t[p].children.len() && t[p].children[k] == x;
        lemma_below_child(t, root, rank, bound, h, p, k);
    }
}

/// Everything is below the root.
pub proof fn lemma_all_below_root(t: Tree, root: Handle, x: Handle)
    requires
        tree_wf(t, root),
        t.contains_key(x),
    ensures
        below(t, root, x),
{
    let (rank, bound) = lemma_ranking(t, root);
    lemma_climb(t, root, rank, bound, x);
}

proof fn lemma_climb(t: Tree, root: Handle, rank: Map<Handle, nat>, bound: nat, x: Handle)
    requires
        tree_wf(t, root),
        ranked(t, rank, bound),
        t.contains_key(x),
    ensures
        below(t, root, x),
    decreases bound - rank[x],
{
    if x == root {
        lemma_below_self(t, root, root);
    } else {
        let p = t[x].parent;
        let k = choose|k: int| 0 <= k < t[p].children.len() && t[p].children[k] == x;
        assert(rank[t[p].children[k]] < rank[p]);
        assert(rank[p] < bound);
        lemma_climb(t, root, rank, bound, p);
        lemma_below_child(t, root, rank, bound, root, p, k);
    }
}

/// Subtrees of different children of one node share nothing.
proof fn lemma_siblings_disjoint(
    t: Tree,
    root: Handle,
    rank: Map<Handle, nat>,
    bound: nat,
    h: Handle,
    i: int,
    j: int,
    x: Handle,
)
    requires
        tree_wf(t, root),
        ranked(t, rank, bound),
        t.contains_key(h),
        0 <= i < j < t[h].children.len(),
        below(t, t[h].children[i], x),
    ensures
        !below(t, t[h].children[j], x),
    decreases bound - rank[x],
{
    let a = t[h].children[i];
    let b = t[h].children[j];
    assert(rank[a] < rank[h] && rank[b] < rank[h]);
    assert(a != b);
    lemma_below_facts(t, root, rank, bound, a, x);
    if below(t, b, x) {
        lemma_below_facts(t, root, rank, bound, b, x);
    }
    if !below(t, b, x) {
    } else if x == a {
        assert(below(t, b, t[a].parent));
        lemma_below_facts(t, root, rank, bound, b, h);
    } else if x == b {
        assert(below(t, a, t[b].parent));
        lemma_below_facts(t, root, rank, bound, a, h);
    } else {
        let p = t[x].parent;
        let k = choose|k: int| 0 <= k < t[p].children.len() && t[p].children[k] == x;
        assert(rank[t[p].children[k]] < rank[p]);
        assert(rank[p] < bound);
        lemma_siblings_disjoint(t, root, rank, bound, h, i, j, p);
    }
}

proof fn lemma_no_duplicates(t: Tree, root: Handle, rank: Map<Handle, nat>, bound: nat, h: Handle)
    requires
        tree_wf(t, root),
        ranked(t, rank, bound),
        t.contains_key(h),
    ensures
        preorder(t, h).no_duplicates(),
    decreases rank[h] + 1, 0nat,
{
    lemma_preorder_unfold(t, root, h);
    let list = t[h].children;
    lemma_no_duplicates_all(t, root, rank, bound, h, 0);
    assert(list.skip(0) =~= list);
    let rest = preorder_all(t, list);
    if rest.contains(h) {
        lemma_preorder_all_contains(t, list, h);
        let i = choose|i: int| 0 <= i < list.len() && below(t, #[trigger] list[i], h);
        lemma_below_facts(t, root, rank, bound, list[i], h);
        assert(rank[list[i]] < rank[h]);
    }
    let all = seq![h] + rest;
    assert forall|i: int, j: int| 0 <= i < j < all.len() implies all[i] != all[j] by {
        assert(rest[j - 1] == all[j]);
        if i > 0 {
            assert(rest[i - 1] == all[i]);
        }
    }
}

proof fn lemma_no_duplicates_all(
    t: Tree,
    root: Handle,
    rank: Map<Handle, nat>,
    bound: nat,
    h: Handle,
    from: nat,
)
    requires
        tree_wf(t, root),
        ranked(t, rank, bound),
        t.contains_key(h),
        from <= t[h].children.len(),
    ensures
        preorder_all(t, t[h].children.skip(from as int)).no_duplicates(),
    decreases rank[h], t[h].children.len() - from + 1,
{
    let list = t[h].children.skip(from as int);
    if list.len() > 0 {
        let first = t[h].children[from as int];
        assert(list[0] == first);
        assert(rank[first] < rank[h]);
        lemma_no_duplicates(t, root, rank, bound, first);
        lemma_no_duplicates_all(t, root, rank, bound, h, from + 1);
        let rest = list.drop_first();
        assert(rest =~= t[h].children.skip(from as int + 1));
        let head = preorder(t, first);
        let tail = preorder_all(t, rest);
        assert forall|x: Handle| head.contains(x) implies !tail.contains(x) by {
            if tail.contains(x) {
                lemma_preorder_all_contains(t, rest, x);
                let i = choose|i: int| 0 <= i < rest.len() && below(t, #[trigger] rest[i], x);
                assert(rest[i] == t[h].children[from + 1 + i]);
                assert(below(t, t[h].children[from as int], x));
                lemma_siblings_disjoint(t, root, rank, bound, h, from as int, from + 1 + i, x);
            }
        }
        let all = head + tail;
        assert forall|i: int, j: int| 0 <= i < j < all.len() implies all[i] != all[j] by {
            if i < head.len() {
                assert(head[i] == all[i]);
                assert(head.contains(all[i]));
                if j >= head.len() {
                    assert(tail[j - head.len()] == all[j]);
                    assert(tail.contains(all[j]));
                }
            } else {
                assert(tail[i - head.len()] == all[i]);
                assert(tail[j - head.len()] == all[j]);
            }
        }
    }
}

/// A subtree lists each of its nodes once.
pub proof fn lemma_preorder_no_duplicates(t: Tree, root: Handle, h: Handle)
    requires
        tree_wf(t, root),
        t.contains_key(h),
    ensures
        preorder(t, h).no_duplicates(),
{
    let (rank, bound) = lemma_ranking(t, root);
    lemma_no_duplicates(t, root, rank, bound, h);
}

/// A list without one of its members.
pub open spec fn without(list: Seq<Handle>, h: Handle) -> Seq<Handle>
    decreases list.len(),
{
    if list.len() == 0 {
        list
    } else {
        let rest = without(list.drop_last(), h);
        if list.last() == h {
            rest
        } else {
            rest.push(list.last())
        }
    }
}

/// Taking a member out leaves the others, each once if it was there once.
pub proof fn lemma_without(list: Seq<Handle>, h: Handle)
    ensures
        forall|x: Handle|
            #[trigger] without(list, h).contains(x) <==> list.contains(x) && x != h,
        list.no_duplicates() ==> without(list, h).no_duplicates(),
        !list.contains(h) ==> without(list, h) == list,
    decreases list.len(),
{
    if list.len() > 0 {
        let front = list.drop_last();
        let rest = without(front, h);
        let now = without(list, h);
        let last = list.last();
        lemma_without(front, h);
        assert forall|x: Handle| #[trigger] now.contains(x) <==> list.contains(x) && x != h by {
            if list.contains(x) {
                let i = choose|i: int| 0 <= i < list.len() && list[i] == x;
                if i < front.len() {
                    assert(front[i] == x);
                }
            }
            if front.contains(x) {
                let i = choose|i: int| 0 <= i < front.len() && front[i] == x;
                assert(list[i] == x);
            }
            if last != h {
                if rest.contains(x) {
                    let i = choose|i: int| 0 <= i < rest.len() && rest[i] == x;
                    assert(now[i] == x);
                }
                if now.contains(x) {
                    let i = choose|i: int| 0 <= i < now.len() && now[i] == x;
                    if i < rest.len() {
                        assert(rest[i] == x);
                    }
                }
                assert(now[now.len() - 1] == last);
            }
            assert(list[list.len() - 1] == last);
        }
        if list.no_duplicates() {
            assert(front.no_duplicates());
            if last != h {
                assert(!rest.contains(last)) by {
                    if front.contains(last) {
                        let i = choose|i: int| 0 <= i < front.len() && front[i] == last;
                        assert(list[i] == list[list.len() - 1]);
                    }
                }
                assert forall|i: int, j: int| 0 <= i < j < now.len() implies now[i] != now[j] by {
                    assert(rest[i] == now[i]);
                    if j < rest.len() {
                        assert(rest[j] == now[j]);
                    } else {
                        assert(rest.contains(rest[i]));
                    }
                }
            }
        }
        if !list.contains(h) {
            assert(list[list.len() - 1] == last);
            assert(!front.contains(h)) by {
                if front.contains(h) {
                    let i = choose|i: int| 0 <= i < front.len() && front[i] == h;
                    assert(list[i] == h);
                }
            }
            assert(now =~= list);
        }
    }
}

/// `h` hung under `p`, behind the children that are there.
pub open spec fn attached(t: Tree, h: Handle, p: Handle) -> Tree {
    let t1 = t.insert(h, Links { parent: p, children: t[h].children });
    t1.insert(p, Links { parent: t1[p].parent, children: t1[p].children.push(h) })
}

/// `h` taken out of its parent's list of children.
pub open spec fn detached(t: Tree, h: Handle) -> Tree {
    let p = t[h].parent;
    if t.contains_key(p) {
        t.insert(p, Links { parent: t[p].parent, children: without(t[p].children, h) })
    } else {
        t
    }
}

/// A new node without children, hung under `p`.
pub open spec fn grown(t: Tree, h: Handle, p: Handle) -> Tree {
    attached(t.insert(h, Links { parent: Handle::none(), children: Seq::empty() }), h, p)
}

/// Hanging a new leaf into a tree gives a tree.
pub proof fn lemma_grown(t: Tree, root: Handle, h: Handle, p: Handle)
    requires
        tree_wf(t, root),
        t.contains_key(p),
        !t.contains_key(h),
        h != Handle::none(),
    ensures
        tree_wf(grown(t, h, p), root),
        grown(t, h, p).dom() == t.dom().insert(h),
{
    let g = grown(t, h, p);
    let (rank, bound) = lemma_ranking(t, root);
    let rank2 = Map::new(
        |x: Handle| true,
        |x: Handle|
            if x == h {
                0nat
            } else {
                rank[x] + 1
            },
    );
    assert(g.dom() =~= t.dom().insert(h));
    assert forall|x: Handle, i: int|
        g.contains_key(x) && 0 <= i < g[x].children.len() implies g.contains_key(
        #[trigger] g[x].children[i],
    ) && g[g[x].children[i]].parent == x && rank2[g[x].children[i]] < rank2[x] by {
        if x != h {
            if x == p && i == t[p].children.len() {
            } else {
                assert(g[x].children[i] == t[x].children[i]);
            }
        }
    }
    assert(ranked(g, rank2, bound + 1));
    assert forall|x: Handle| #![trigger g[x].parent] g.contains_key(x) && x != root implies
        g.contains_key(g[x].parent) && g[g[x].parent].children.contains(x) by {
        if x == h {
            assert(g[p].children[t[p].children.len() as int] == h);
        } else {
            let q = t[x].parent;
            assert(t[q].children.contains(x));
            let i = choose|i: int| 0 <= i < t[q].children.len() && t[q].children[i] == x;
            assert(g[q].children[i] == x);
        }
    }
    assert forall|x: Handle| #[trigger] g.contains_key(x) implies g[x].children.no_duplicates() by {
        if x == p {
            assert(!t[p].children.contains(h)) by {
                if t[p].children.contains(h) {
                    let i = choose|i: int| 0 <= i < t[p].children.len() && t[p].children[i] == h;
                    assert(t.contains_key(t[p].children[i]));
                }
            }
            let old_list = t[p].children;
            let list = g[p].children;
            assert forall|i: int, j: int| 0 <= i < j < list.len() implies list[i] != list[j] by {
                assert(old_list[i] == list[i]);
                assert(old_list.contains(old_list[i]));
                if j < old_list.len() {
                    assert(old_list[j] == list[j]);
                }
            }
        }
    }
}

/// Moving a node under another that is not below it gives a tree again.
pub proof fn lemma_relinked(t: Tree, root: Handle, c: Handle, p: Handle)
    requires
        tree_wf(t, root),
        t.contains_key(c),
        t.contains_key(p),
        c != root,
        !below(t, c, p),
    ensures
        tree_wf(attached(detached(t, c), c, p), root),
        attached(detached(t, c), c, p).dom() == t.dom(),
{
    let q = t[c].parent;
    let d = detached(t, c);
    let g = attached(d, c, p);
    let (rank, bound) = lemma_ranking(t, root);
    lemma_without(t[q].children, c);
    lemma_below_self(t, root, c);
    assert(c != p);
    assert(q != c) by {
        let i = choose|i: int| 0 <= i < t[q].children.len() && t[q].children[i] == c;
        assert(rank[t[q].children[i]] < rank[q]);
    }
    let rank2 = Map::new(
        |x: Handle| true,
        |x: Handle|
            if below(t, x, p) {
                rank[x] + rank[c] + 1
            } else {
                rank[x]
            },
    );
    assert(g.dom() =~= t.dom());
    assert forall|x: Handle, i: int|
        g.contains_key(x) && 0 <= i < g[x].children.len() implies g.contains_key(
        #[trigger] g[x].children[i],
    ) && g[g[x].children[i]].parent == x && rank2[g[x].children[i]] < rank2[x] by {
        let y = g[x].children[i];
        if x == p && i == d[p].children.len() {
            lemma_below_self(t, root, p);
        } else {
            assert(d[x].children[i] == y);
            assert(d[x].children.contains(y));
            if x == q {
                assert(t[q].children.contains(y) && y != c);
            } else {
                assert(t[x].children.contains(y));
            }
            let k = choose|k: int| 0 <= k < t[x].children.len() && t[x].children[k] == y;
            assert(rank[t[x].children[k]] < rank[x]);
            if below(t, y, p) {
                lemma_below_unfold(t, root, x, p);
                assert(below(t, t[x].children[k], p));
            }
        }
    }
    assert(ranked(g, rank2, bound + rank[c] + 1)) by {
        assert forall|x: Handle| #[trigger] g.contains_key(x) implies rank2[x] < bound + rank[c]
            + 1 by {
            assert(t.contains_key(x));
        }
    }
    assert forall|x: Handle| #![trigger g[x].parent] g.contains_key(x) && x != root implies
        g.contains_key(g[x].parent) && g[g[x].parent].children.contains(x) by {
        if x == c {
            assert(g[p].children[d[p].children.len() as int] == c);
        } else {
            let y = t[x].parent;
            assert(t[y].children.contains(x));
            assert(d[y].children.contains(x));
            let i = choose|i: int| 0 <= i < d[y].children.len() && d[y].children[i] == x;
            assert(g[y].children[i] == x);
        }
    }
    assert forall|x: Handle| #[trigger] g.contains_key(x) implies g[x].children.no_duplicates() by {
        assert(t.contains_key(x));
        assert(d[x].children.no_duplicates());
        if x == p {
            assert(!d[p].children.contains(c)) by {
                if t[p].children.contains(c) {
                    let i = choose|i: int| 0 <= i < t[p].children.len() && t[p].children[i] == c;
                    assert(t[t[p].children[i]].parent == p);
                }
            }
            let old_list = d[p].children;
            let list = g[p].children;
            assert forall|i: int, j: int| 0 <= i < j < list.len() implies list[i] != list[j] by {
                assert(old_list[i] == list[i]);
                assert(old_list.contains(old_list[i]));
                if j < old_list.len() {
                    assert(old_list[j] == list[j]);
                }
            }
        }
    }
}

/// The tree without the subtree of `h`.
pub open spec fn pruned(t: Tree, h: Handle) -> Tree {
    let d = detached(t, h);
    Map::new(|x: Handle| t.contains_key(x) && !below(t, h, x), |x: Handle| d[x])
}

/// Cutting a subtree off gives a tree again.
pub proof fn lemma_pruned(t: Tree, root: Handle, h: Handle)
    requires
        tree_wf(t, root),
        t.contains_key(h),
        h != root,
    ensures
        tree_wf(pruned(t, h), root),
{
    let q = t[h].parent;
    let d = detached(t, h);
    let g = pruned(t, h);
    let (rank, bound) = lemma_ranking(t, root);
    lemma_without(t[q].children, h);
    lemma_below_self(t, root, h);
    lemma_below_parent(t, root, h, root);
    assert(q != h) by {
        let i = choose|i: int| 0 <= i < t[q].children.len() && t[q].children[i] == h;
        assert(rank[t[q].children[i]] < rank[q]);
    }
    assert forall|x: Handle, i: int|
        g.contains_key(x) && 0 <= i < g[x].children.len() implies g.contains_key(
        #[trigger] g[x].children[i],
    ) && g[g[x].children[i]].parent == x && rank[g[x].children[i]] < rank[x] by {
        let y = g[x].children[i];
        assert(d[x].children.contains(y));
        if x == q {
            assert(t[q].children.contains(y) && y != h);
        } else {
            assert(t[x].children.contains(y));
        }
        let k = choose|k: int| 0 <= k < t[x].children.len() && t[x].children[k] == y;
        assert(rank[t[x].children[k]] < rank[x]);
        assert(t[t[x].children[k]].parent == x);
        assert(y != root) by {
            assert(t[root].parent == Handle::none());
        }
        assert(y != h);
        lemma_below_parent(t, root, h, y);
    }
    assert(ranked(g, rank, bound));
    assert forall|x: Handle| #![trigger g[x].parent] g.contains_key(x) && x != root implies
        g.contains_key(g[x].parent) && g[g[x].parent].children.contains(x) by {
        let y = t[x].parent;
        lemma_below_parent(t, root, h, x);
        assert(t[y].children.contains(x));
        assert(d[y].children.contains(x));
    }
    assert forall|x: Handle| #[trigger] g.contains_key(x) implies g[x].children.no_duplicates() by {
        assert(t.contains_key(x));
    }
}

/// In a list of subtrees, what is not itself listed comes after its parent.
proof fn lemma_parent_first_all(
    t: Tree,
    root: Handle,
    rank: Map<Handle, nat>,
    bound: nat,
    list: Seq<Handle>,
    top: nat,
    i: int,
)
    requires
        tree_wf(t, root),
        ranked(t, rank, bound),
        forall|k: int|
            0 <= k < list.len() ==> t.contains_key(#[trigger] list[k]) && rank[list[k]] < top,
        0 <= i < preorder_all(t, list).len(),
    ensures
        list.contains(preorder_all(t, list)[i]) || exists|j: int|
            0 <= j < i && #[trigger] preorder_all(t, list)[j] == t[preorder_all(t, list)[i]].parent,
    decreases top, list.len() + 1,
{
    let head = preorder(t, list[0]);
    let rest = list.drop_first();
    let tail = preorder_all(t, rest);
    let all = preorder_all(t, list);
    assert(t.contains_key(list[0]));
    if i < head.len() {
        lemma_parent_first_in(t, root, rank, bound, list[0], i);
        assert(all[i] == head[i]);
        if i == 0 {
            lemma_preorder_unfold(t, root, list[0]);
            assert(list.contains(list[0]));
        } else {
            let j = choose|j: int| 0 <= j < i && #[trigger] head[j] == t[head[i]].parent;
            assert(all[j] == head[j]);
        }
    } else {
        let k = i - head.len();
        assert forall|m: int| 0 <= m < rest.len() implies t.contains_key(#[trigger] rest[m])
            && rank[rest[m]] < top by {
            assert(rest[m] == list[m + 1]);
        }
        lemma_parent_first_all(t, root, rank, bound, rest, top, k);
        assert(all[i] == tail[k]);
        if rest.contains(tail[k]) {
            let m = choose|m: int| 0 <= m < rest.len() && rest[m] == tail[k];
            assert(list[m + 1] == tail[k]);
        } else {
            let j = choose|j: int| 0 <= j < k && #[trigger] tail[j] == t[tail[k]].parent;
            assert(all[head.len() + j] == tail[j]);
        }
    }
}

proof fn lemma_parent_first_in(
    t: Tree,
    root: Handle,
    rank: Map<Handle, nat>,
    bound: nat,
    h: Handle,
    i: int,
)
    requires
        tree_wf(t, root),
        ranked(t, rank, bound),
        t.contains_key(h),
        0 <= i < preorder(t, h).len(),
    ensures
        i > 0 ==> exists|j: int|
            0 <= j < i && #[trigger] preorder(t, h)[j] == t[preorder(t, h)[i]].parent,
    decreases rank[h] + 1, 0nat,
{
    lemma_preorder_unfold(t, root, h);
    let list = t[h].children;
    let rest = preorder_all(t, list);
    let all = preorder(t, h);
    if i > 0 {
        lemma_parent_first_all(t, root, rank, bound, list, rank[h], i - 1);
        assert(all[i] == rest[i - 1]);
        if list.contains(rest[i - 1]) {
            let k = choose|k: int| 0 <= k < list.len() && list[k] == rest[i - 1];
            assert(t[t[h].children[k]].parent == h);
            assert(all[0] == h);
        } else {
            let j = choose|j: int| 0 <= j < i - 1 && #[trigger] rest[j] == t[rest[i - 1]].parent;
            assert(all[j + 1] == rest[j]);
        }
    }
}

/// A subtree begins with its top, and everything else in it comes after its own parent.
pub proof fn lemma_parent_first(t: Tree, root: Handle, h: Handle, i: int)
    requires
        tree_wf(t, root),
        t.contains_key(h),
        0 <= i < preorder(t, h).len(),
    ensures
        preorder(t, h)[0] == h,
        i > 0 ==> exists|j: int|
            0 <= j < i && #[trigger] preorder(t, h)[j] == t[preorder(t, h)[i]].parent,
{
    let (rank, bound) = lemma_ranking(t, root);
    lemma_preorder_unfold(t, root, h);
    lemma_parent_first_in(t, root, rank, bound, h, i);
}

/// Pushing a node's children onto a stack from last to first.
pub proof fn lemma_push_child(t: Tree, list: Seq<Handle>, stack: Seq<Handle>, i: int)
    requires
        0 < i <= list.len(),
    ensures
        preorder_stack(t, stack.push(list[i - 1])) == preorder(t, list[i - 1]) + preorder_stack(
            t,
            stack,
        ),
        preorder_all(t, list.skip(i - 1)) == preorder(t, list[i - 1]) + preorder_all(
            t,
            list.skip(i),
        ),
{
    assert(stack.push(list[i - 1]).drop_last() =~= stack);
    assert(list.skip(i - 1).drop_first() =~= list.skip(i));
}

/// Where a renaming takes a handle; handles that it does not know go nowhere.
pub open spec fn renamed(names: Map<Handle, Handle>, h: Handle) -> Handle {
    if names.contains_key(h) {
        names[h]
    } else {
        Handle::none()
    }
}

/// Where a renaming takes a list.
pub open spec fn renamed_all(names: Map<Handle, Handle>, list: Seq<Handle>) -> Seq<Handle> {
    Seq::new(list.len(), |i: int| renamed(names, list[i]))
}

/// A renaming gives every node of `s` a name of its own that `t` does not use.
pub open spec fn fresh_names(t: Tree, s: Tree, names: Map<Handle, Handle>) -> bool {
    &&& names.dom() == s.dom()
    &&& forall|h: Handle| #[trigger]
        names.contains_key(h) ==> !t.contains_key(names[h]) && names[h] != Handle::none()
    &&& forall|a: Handle, b: Handle|
        names.contains_key(a) && names.contains_key(b) && #[trigger] names[a] == #[trigger] names[b]
            ==> a == b
}

/// `g` is `t` with `s` hung under `p`, its nodes renamed.
pub open spec fn is_grafted(
    g: Tree,
    t: Tree,
    s: Tree,
    s_root: Handle,
    names: Map<Handle, Handle>,
    p: Handle,
) -> bool {
    &&& forall|x: Handle| #[trigger]
        g.contains_key(x) <==> t.contains_key(x) || exists|h: Handle|
            s.contains_key(h) && #[trigger] names[h] == x
    &&& forall|x: Handle| #[trigger]
        t.contains_key(x) ==> g[x] == if x == p {
            Links { parent: t[p].parent, children: t[p].children.push(names[s_root]) }
        } else {
            t[x]
        }
    &&& forall|h: Handle| #[trigger]
        s.contains_key(h) ==> g[names[h]] == (Links {
            parent: if h == s_root {
                p
            } else {
                renamed(names, s[h].parent)
            },
            children: renamed_all(names, s[h].children),
        })
}

/// Hanging one tree into another gives a tree.
pub proof fn lemma_grafted(
    g: Tree,
    t: Tree,
    root: Handle,
    s: Tree,
    s_root: Handle,
    names: Map<Handle, Handle>,
    p: Handle,
)
    requires
        tree_wf(t, root),
        tree_wf(s, s_root),
        fresh_names(t, s, names),
        t.contains_key(p),
        is_grafted(g, t, s, s_root, names, p),
    ensures
        tree_wf(g, root),
{
    let (rank_t, bound_t) = lemma_ranking(t, root);
    let (rank_s, bound_s) = lemma_ranking(s, s_root);
    let old_name = Map::new(
        |x: Handle| exists|h: Handle| s.contains_key(h) && #[trigger] names[h] == x,
        |x: Handle| choose|h: Handle| s.contains_key(h) && #[trigger] names[h] == x,
    );
    assert forall|h: Handle| #[trigger] s.contains_key(h) implies {
        &&& names.contains_key(h)
        &&& old_name.contains_key(names[h])
        &&& old_name[names[h]] == h
        &&& g.contains_key(names[h])
        &&& !t.contains_key(names[h])
    } by {
        assert(names.contains_key(h));
        let x = names[h];
        let k = choose|k: Handle| s.contains_key(k) && #[trigger] names[k] == x;
        assert(names.contains_key(k));
    }
    let rank = Map::new(
        |x: Handle| true,
        |x: Handle|
            if t.contains_key(x) {
                rank_t[x] + bound_s
            } else {
                rank_s[old_name[x]]
            },
    );
    assert forall|x: Handle, i: int|
        g.contains_key(x) && 0 <= i < g[x].children.len() implies g.contains_key(
        #[trigger] g[x].children[i],
    ) && g[g[x].children[i]].parent == x && rank[g[x].children[i]] < rank[x] by {
        let y = g[x].children[i];
        if t.contains_key(x) {
            if x == p && i == t[p].children.len() {
                assert(s.contains_key(s_root));
                assert(rank_s[s_root] < bound_s);
            } else {
                assert(y == t[x].children[i]);
                assert(t.contains_key(t[x].children[i]));
                if y == p {
                    assert(g[p].parent == t[p].parent);
                }
            }
        } else {
            let h = choose|h: Handle| s.contains_key(h) && #[trigger] names[h] == x;
            assert(old_name[x] == h);
            let c = s[h].children[i];
            assert(s.contains_key(s[h].children[i]));
            assert(y == names[c]);
            assert(s[c].parent == h);
            assert(c != s_root) by {
                assert(s[s_root].parent == Handle::none());
            }
            assert(rank_s[s[h].children[i]] < rank_s[h]);
        }
    }
    assert(ranked(g, rank, bound_t + bound_s)) by {
        assert forall|x: Handle| #[trigger] g.contains_key(x) implies rank[x] < bound_t + bound_s by {
            if t.contains_key(x) {
            } else {
                let h = choose|h: Handle| s.contains_key(h) && #[trigger] names[h] == x;
                assert(s.contains_key(h));
            }
        }
    }
    assert forall|x: Handle| #![trigger g[x].parent] g.contains_key(x) && x != root implies
        g.contains_key(g[x].parent) && g[g[x].parent].children.contains(x) by {
        if t.contains_key(x) {
            let q = t[x].parent;
            assert(g[x].parent == q);
            assert(t[q].children.contains(x));
            let i = choose|i: int| 0 <= i < t[q].children.len() && t[q].children[i] == x;
            assert(g[q].children[i] == x);
        } else {
            let h = choose|h: Handle| s.contains_key(h) && #[trigger] names[h] == x;
            if h == s_root {
                assert(g[p].children[t[p].children.len() as int] == x);
            } else {
                let q = s[h].parent;
                assert(s.contains_key(q));
                assert(s[q].children.contains(h));
                let i = choose|i: int| 0 <= i < s[q].children.len() && s[q].children[i] == h;
                assert(g[names[q]].children[i] == x);
            }
        }
    }
    assert forall|x: Handle| #[trigger] g.contains_key(x) implies g[x].children.no_duplicates() by {
        let list = g[x].children;
        if t.contains_key(x) {
            let before = t[x].children;
            assert forall|i: int, j: int| 0 <= i < j < list.len() implies list[i] != list[j] by {
                assert(before[i] == list[i]);
                assert(t.contains_key(t[x].children[i]));
                assert(s.contains_key(s_root));
                if j < before.len() {
                    assert(before[j] == list[j]);
                }
            }
        } else {
            let h = choose|h: Handle| s.contains_key(h) && #[trigger] names[h] == x;
            assert(s.contains_key(h));
            assert forall|i: int, j: int| 0 <= i < j < list.len() implies list[i] != list[j] by {
                let a = s[h].children[i];
                let b = s[h].children[j];
                assert(s.contains_key(s[h].children[i]));
                assert(s.contains_key(s[h].children[j]));
                assert(a != b);
                assert(list[i] == names[a]);
                assert(list[j] == names[b]);
            }
        }
    }
    assert(!g.contains_key(Handle::none())) by {
        if g.contains_key(Handle::none()) {
            let h = choose|h: Handle| s.contains_key(h) && #[trigger] names[h] == Handle::none();
            assert(names.contains_key(h));
        }
    }
    assert(g.contains_key(root));
}

/// Where the subtree of one of the listed nodes begins among them all.
proof fn lemma_subtree_begins(t: Tree, root: Handle, list: Seq<Handle>, i: int) -> (at: int)
    requires
        tree_wf(t, root),
        0 <= i < list.len(),
        t.contains_key(list[i]),
    ensures
        at == preorder_all(t, list.take(i)).len(),
        at + preorder(t, list[i]).len() <= preorder_all(t, list).len(),
        preorder_all(t, list).subrange(at, at + preorder(t, list[i]).len()) == preorder(t, list[i]),
    decreases list.len(),
{
    let head = preorder(t, list[0]);
    let rest = list.drop_first();
    let all = preorder_all(t, list);
    assert(all == head + preorder_all(t, rest));
    if i == 0 {
        assert(list.take(0) =~= Seq::<Handle>::empty());
        assert(all.subrange(0, head.len() as int) =~= head);
        0
    } else {
        assert(rest[i - 1] == list[i]);
        let at = lemma_subtree_begins(t, root, rest, i - 1);
        let n = preorder(t, list[i]).len() as int;
        assert(list.take(i).drop_first() =~= rest.take(i - 1));
        assert(list.take(i)[0] == list[0]);
        assert(all.subrange(head.len() + at, head.len() + at + n) =~= preorder_all(
            t,
            rest,
        ).subrange(at, at + n));
        head.len() + at
    }
}

proof fn lemma_subtrees_grow(t: Tree, list: Seq<Handle>, i: int, j: int)
    requires
        0 <= i < j <= list.len(),
    ensures
        preorder_all(t, list.take(i)).len() + preorder(t, list[i]).len() <= preorder_all(
            t,
            list.take(j),
        ).len(),
    decreases i,
{
    let a = list.take(i);
    let b = list.take(j);
    assert(b[0] == list[0]);
    if i == 0 {
        assert(a =~= Seq::<Handle>::empty());
    } else {
        let rest = list.drop_first();
        assert(a.drop_first() =~= rest.take(i - 1));
        assert(b.drop_first() =~= rest.take(j - 1));
        assert(rest[i - 1] == list[i]);
        lemma_subtrees_grow(t, rest, i - 1, j - 1);
    }
}

/// A list is a piece of another, from a place on.
pub open spec fn stands_at(all: Seq<Handle>, piece: Seq<Handle>, at: int) -> bool {
    &&& 0 <= at
    &&& at + piece.len() <= all.len()
    &&& all.subrange(at, at + piece.len()) == piece
}

/// Going through a subtree, its top comes first, then the subtree of each child in one piece, in the
/// order of the children.
pub proof fn lemma_children_come_in_order(t: Tree, root: Handle, h: Handle, i: int, j: int)
    requires
        tree_wf(t, root),
        t.contains_key(h),
        0 <= i < j < t[h].children.len(),
    ensures
        preorder(t, h)[0] == h,
        exists|a: int, b: int|
            {
                &&& 1 <= a
                &&& a + preorder(t, t[h].children[i]).len() <= b
                &&& #[trigger] stands_at(preorder(t, h), preorder(t, t[h].children[i]), a)
                &&& #[trigger] stands_at(preorder(t, h), preorder(t, t[h].children[j]), b)
            },
{
    let list = t[h].children;
    let all = preorder(t, h);
    let rest = preorder_all(t, list);
    lemma_preorder_unfold(t, root, h);
    assert(t.contains_key(list[i]) && t.contains_key(list[j]));
    let a = lemma_subtree_begins(t, root, list, i);
    let b = lemma_subtree_begins(t, root, list, j);
    lemma_subtrees_grow(t, list, i, j);
    let m = preorder(t, list[i]).len() as int;
    let n = preorder(t, list[j]).len() as int;
    assert(all.subrange(a + 1, a + 1 + m) =~= rest.subrange(a, a + m));
    assert(all.subrange(b + 1, b + 1 + n) =~= rest.subrange(b, b + n));
    assert(stands_at(all, preorder(t, list[i]), a + 1));
    assert(stands_at(all, preorder(t, list[j]), b + 1));
}

} // verus!
