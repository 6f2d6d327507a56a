//! Telling whether nodes form a tree.

use crate::pool::{Handle, Pool};
use crate::scene::graph;
use crate::scene::node::Node;
use crate::tree;
use crate::tree::Tree;
use vstd::prelude::*;

verus! {

/// What can be seen of a tree at one of its nodes.
spec fn fits(t: Tree, root: Handle, h: Handle) -> bool {
    &&& forall|i: int|
        0 <= i < t[h].children.len() ==> t.contains_key(#[trigger] t[h].children[i])
            && t[t[h].children[i]].parent == h
    &&& t[h].children.no_duplicates()
    &&& h != root ==> t.contains_key(t[h].parent) && t[t[h].parent].children.contains(h)
}

fn distinct(list: &Vec<Handle>) -> (result: bool)
    ensures
        result == list@.no_duplicates(),
{
    let mut i: usize = 0;
    while i < list.len()
        invariant
            i <= list@.len(),
            forall|a: int, b: int| 0 <= a < b < i ==> list@[a] != list@[b],
        decreases list@.len() - i,
    {
        let mut j: usize = 0;
        while j < i
            invariant
                j <= i < list@.len(),
                forall|a: int| 0 <= a < j ==> list@[a] != list@[i as int],
            decreases i - j,
        {
            if list[j] == list[i] {
                assert(list@[j as int] == list@[i as int]);
                return false;
            }
            j += 1;
        }
        i += 1;
    }
    true
}

fn node_fits(nodes: &Pool<Node>, root: Handle, h: Handle) -> (result: bool)
    requires
        nodes@.contains_key(h),
    ensures
        result == fits(graph::links_of(nodes@), root, h),
{
    let ghost t = graph::links_of(nodes@);
    let node = nodes.borrow(h);
    assert(t[h].children == node.children@);
    if !distinct(&node.children) {
        return false;
    }
    let mut i: usize = 0;
    while i < node.children.len()
        invariant
            t == graph::links_of(nodes@),
            t[h].children == node.children@,
            i <= node.children@.len(),
            forall|j: int|
                0 <= j < i ==> t.contains_key(#[trigger] t[h].children[j])
                    && t[t[h].children[j]].parent == h,
        decreases node.children@.len() - i,
    {
        let child = node.children[i];
        assert(t[h].children[i as int] == child);
        match nodes.try_borrow(child) {
            Some(below) => {
                assert(t[child].parent == below.parent);
                if below.parent != h {
                    return false;
                }
            },
            None => {
                assert(!t.contains_key(child));
                return false;
            },
        }
        i += 1;
    }
    if h == root {
        return true;
    }
    match nodes.try_borrow(node.parent) {
        Some(parent) => {
            assert(t[t[h].parent].children == parent.children@);
            graph::lists(&parent.children, h)
        },
        None => false,
    }
}

/// A list of nodes that holds the children of its first `done` members, and no others but the root.
spec fn spread(t: Tree, root: Handle, order: Seq<Handle>, done: int) -> bool {
    &&& 0 <= done <= order.len()
    &&& order.len() > 0
    &&& order[0] == root
    &&& order.no_duplicates()
    &&& forall|k: int| 0 <= k < order.len() ==> t.contains_key(#[trigger] order[k])
    &&& forall|k: int|
        1 <= k < order.len() ==> exists|p: int|
            0 <= p < k && p < done && #[trigger] order[p] == t[#[trigger] order[k]].parent
    &&& forall|j: int, m: int|
        0 <= j < done && 0 <= m < t[order[j]].children.len() ==> #[trigger] follows(
            order,
            j,
            t[order[j]].children[m],
        )
}

/// Whether `c` comes somewhere behind place `j`.
spec fn follows(order: Seq<Handle>, j: int, c: Handle) -> bool {
    exists|k: int| j < k < order.len() && #[trigger] order[k] == c
}

proof fn lemma_spreads(t: Tree, root: Handle, order: Seq<Handle>, done: int)
    requires
        spread(t, root, order, done),
        done < order.len(),
        t[root].parent == Handle::none(),
        !t.contains_key(Handle::none()),
        fits(t, root, order[done]),
    ensures
        spread(t, root, order + t[order[done]].children, done + 1),
{
    let h = order[done];
    let more = t[h].children;
    let next = order + more;
    let n = order.len() as int;
    assert(t.contains_key(h));
    assert forall|m: int| 0 <= m < more.len() implies t.contains_key(#[trigger] more[m])
        && t[more[m]].parent == h by {
        assert(t.contains_key(t[h].children[m]));
    }
    assert forall|a: int, b: int| 0 <= a < b < next.len() implies next[a] != next[b] by {
        if b < n {
            assert(order[a] == next[a] && order[b] == next[b]);
        } else if a >= n {
            assert(more[a - n] == next[a] && more[b - n] == next[b]);
        } else {
            assert(order[a] == next[a]);
            assert(more[b - n] == next[b]);
            if next[a] == next[b] {
                assert(t[order[a]].parent == h);
                if a == 0 {
                    assert(t.contains_key(h));
                } else {
                    let p = choose|p: int|
                        0 <= p < a && p < done && #[trigger] order[p] == t[order[a]].parent;
                    assert(order[p] == order[done]);
                }
            }
        }
    }
    assert(next.no_duplicates());
    assert(next[0] == root);
    assert forall|k: int| 0 <= k < next.len() implies t.contains_key(#[trigger] next[k]) by {
        if k < n {
            assert(next[k] == order[k]);
        } else {
            assert(next[k] == more[k - n]);
        }
    }
    assert forall|k: int| 1 <= k < next.len() implies exists|p: int|
        0 <= p < k && p < done + 1 && #[trigger] next[p] == t[#[trigger] next[k]].parent by {
        if k < n {
            assert(next[k] == order[k]);
            let p = choose|p: int|
                0 <= p < k && p < done && #[trigger] order[p] == t[order[k]].parent;
            assert(next[p] == order[p]);
        } else {
            assert(next[k] == more[k - n]);
            assert(next[done] == h);
        }
    }
    assert forall|j: int, m: int|
        0 <= j < done + 1 && 0 <= m < t[next[j]].children.len() implies #[trigger] follows(
        next,
        j,
        t[next[j]].children[m],
    ) by {
        assert(next[j] == order[j]);
        if j < done {
            assert(follows(order, j, t[order[j]].children[m]));
            let k = choose|k: int|
                j < k < order.len() && #[trigger] order[k] == t[order[j]].children[m];
            assert(next[k] == order[k]);
        } else {
            assert(next[n + m] == more[m]);
        }
    }
}

proof fn lemma_spread_is_tree(t: Tree, root: Handle, order: Seq<Handle>)
    requires
        spread(t, root, order, order.len() as int),
        t[root].parent == Handle::none(),
        !t.contains_key(Handle::none()),
        forall|h: Handle| #[trigger] t.contains_key(h) ==> fits(t, root, h),
        forall|h: Handle| #[trigger] t.contains_key(h) ==> order.contains(h),
    ensures
        tree::tree_wf(t, root),
{
    let n = order.len();
    let rank = Map::new(
        |h: Handle| t.contains_key(h),
        |h: Handle| (n - order.index_of(h)) as nat,
    );
    assert(t.contains_key(order[0]));
    assert forall|h: Handle, i: int|
        t.contains_key(h) && 0 <= i < t[h].children.len() implies rank[#[trigger] t[h].children[i]]
        < rank[h] by {
        assert(fits(t, root, h));
        let c = t[h].children[i];
        assert(t.contains_key(c));
        let j = order.index_of(h);
        assert(order.contains(h));
        assert(order[j] == h);
        assert(follows(order, j, t[order[j]].children[i]));
        let k = choose|k: int|
            j < k < order.len() && #[trigger] order[k] == t[order[j]].children[i];
        assert(order.contains(c));
        let l = order.index_of(c);
        assert(order[l] == order[k]);
    }
    assert forall|h: Handle| #[trigger] t.contains_key(h) implies rank[h] < n + 1 by {
        assert(order.contains(h));
    }
    assert(tree::ranked(t, rank, n + 1));
    assert forall|h: Handle|
        #![trigger t[h].parent]
        t.contains_key(h) && h != root implies t.contains_key(t[h].parent)
        && t[t[h].parent].children.contains(h) by {
        assert(fits(t, root, h));
    }
    assert forall|h: Handle, i: int|
        t.contains_key(h) && 0 <= i < t[h].children.len() implies t.contains_key(
        #[trigger] t[h].children[i],
    ) && t[t[h].children[i]].parent == h by {
        assert(fits(t, root, h));
    }
    assert forall|h: Handle| #[trigger] t.contains_key(h) implies t[h].children.no_duplicates() by {
        assert(fits(t, root, h));
    }
}

proof fn lemma_tree_is_spread(
    t: Tree,
    root: Handle,
    order: Seq<Handle>,
    rank: Map<Handle, nat>,
    bound: nat,
    x: Handle,
)
    requires
        tree::tree_wf(t, root),
        tree::ranked(t, rank, bound),
        spread(t, root, order, order.len() as int),
        t.contains_key(x),
    ensures
        order.contains(x),
    decreases bound - rank[x],
{
    if x == root {
        assert(order[0] == root);
    } else {
        let p = t[x].parent;
        let m = choose|m: int| 0 <= m < t[p].children.len() && t[p].children[m] == x;
        assert(t[p].children.contains(x));
        assert(rank[t[p].children[m]] < rank[p]);
        assert(rank[p] < bound);
        lemma_tree_is_spread(t, root, order, rank, bound, p);
        let j = choose|j: int| 0 <= j < order.len() && order[j] == p;
        assert(follows(order, j, t[order[j]].children[m]));
        let k = choose|k: int|
            j < k < order.len() && #[trigger] order[k] == t[order[j]].children[m];
        assert(order[k] == x);
    }
}

/// Whether nodes form a tree under `root`.
pub fn is_tree(nodes: &Pool<Node>, root: Handle) -> (result: bool)
    requires
        nodes.wf(),
    ensures
        result == tree::tree_wf(graph::links_of(nodes@), root),
{
    let ghost t = graph::links_of(nodes@);
    proof {
        nodes.lemma_live_is_issued();
        nodes.lemma_order();
    }
    match nodes.try_borrow(root) {
        Some(node) => {
            assert(t[root].parent == node.parent);
            if node.parent != Handle::none() {
                return false;
            }
        },
        None => {
            assert(!t.contains_key(root));
            return false;
        },
    }
    let handles = nodes.handles();
    let mut i: usize = 0;
    while i < handles.len()
        invariant
            nodes.wf(),
            t == graph::links_of(nodes@),
            handles@ == nodes.order(),
            forall|k: int| 0 <= k < handles@.len() ==> nodes@.contains_key(
                #[trigger] nodes.order()[k],
            ),
            i <= handles@.len(),
            forall|j: int| 0 <= j < i ==> fits(t, root, #[trigger] handles@[j]),
        decreases handles@.len() - i,
    {
        assert(nodes@.contains_key(nodes.order()[i as int]));
        if !node_fits(nodes, root, handles[i]) {
            proof {
                let h = handles@[i as int];
                if tree::tree_wf(t, root) {
                    assert(t.contains_key(h));
                    if h != root {
                        assert(t.contains_key(t[h].parent));
                    }
                    assert(fits(t, root, h));
                }
            }
            return false;
        }
        i += 1;
    }
    proof {
        assert forall|h: Handle| #[trigger] t.contains_key(h) implies fits(t, root, h) by {
            assert(handles@.contains(h));
            let k = choose|k: int| 0 <= k < handles@.len() && handles@[k] == h;
            assert(fits(t, root, handles@[k]));
        }
    }
    let mut order: Vec<Handle> = Vec::new();
    order.push(root);
    assert(handles@.contains(root));
    let mut done: usize = 0;
    while done < order.len()
        invariant
            nodes.wf(),
            t == graph::links_of(nodes@),
            t[root].parent == Handle::none(),
            !t.contains_key(Handle::none()),
            forall|h: Handle| #[trigger] t.contains_key(h) ==> fits(t, root, h),
            forall|h: Handle| #[trigger] nodes.order().contains(h) <==> nodes@.contains_key(h),
            nodes.order().no_duplicates(),
            spread(t, root, order@, done as int),
            order@.len() <= nodes.order().len(),
        decreases nodes.order().len() - done,
    {
        let h = order[done];
        assert(t.contains_key(order@[done as int]));
        proof {
            lemma_spreads(t, root, order@, done as int);
        }
        let ghost before = order@;
        let children = &nodes.borrow(h).children;
        order.extend_from_slice(children.as_slice());
        assert(order@ =~= before + t[h].children);
        done += 1;
        proof {
            lemma_not_more(order@, nodes.order());
        }
    }
    proof {
        if order@.len() == handles@.len() {
            lemma_all_there(order@, handles@);
            assert forall|h: Handle| #[trigger] t.contains_key(h) implies order@.contains(h) by {
                assert(handles@.contains(h));
            }
            lemma_spread_is_tree(t, root, order@);
        } else if tree::tree_wf(t, root) {
            let (rank, bound) = choose|rank: Map<Handle, nat>, bound: nat|
                tree::ranked(t, rank, bound);
            assert forall|x: Handle| handles@.contains(x) implies #[trigger] order@.contains(x) by {
                assert(t.contains_key(x));
                lemma_tree_is_spread(t, root, order@, rank, bound, x);
            }
            assert forall|k: int| 0 <= k < handles@.len() implies order@.contains(
                #[trigger] handles@[k],
            ) by {
                assert(handles@.contains(handles@[k]));
            }
            lemma_not_more(handles@, order@);
        }
    }
    order.len() == handles.len()
}

/// A list without repetitions is not longer than one that holds all of its members.
proof fn lemma_not_more(a: Seq<Handle>, b: Seq<Handle>)
    requires
        a.no_duplicates(),
        b.no_duplicates(),
        forall|k: int| 0 <= k < a.len() ==> b.contains(#[trigger] a[k]),
    ensures
        a.len() <= b.len(),
{
    a.unique_seq_to_set();
    b.unique_seq_to_set();
    vstd::seq_lib::seq_to_set_is_finite(b);
    assert(a.to_set().subset_of(b.to_set())) by {
        assert forall|x: Handle| a.to_set().contains(x) implies b.to_set().contains(x) by {
            let k = choose|k: int| 0 <= k < a.len() && a[k] == x;
            assert(b.contains(a[k]));
        }
    }
    vstd::set_lib::lemma_len_subset(a.to_set(), b.to_set());
}

/// A list without repetitions that is as long as one that holds all of its members holds all.
proof fn lemma_all_there(a: Seq<Handle>, b: Seq<Handle>)
    requires
        a.no_duplicates(),
        b.no_duplicates(),
        a.len() == b.len(),
        forall|k: int| 0 <= k < a.len() ==> b.contains(#[trigger] a[k]),
    ensures
        forall|x: Handle| b.contains(x) ==> a.contains(x),
{
    a.unique_seq_to_set();
    b.unique_seq_to_set();
    vstd::seq_lib::seq_to_set_is_finite(a);
    vstd::seq_lib::seq_to_set_is_finite(b);
    assert(a.to_set().subset_of(b.to_set())) by {
        assert forall|x: Handle| a.to_set().contains(x) implies b.to_set().contains(x) by {
            let k = choose|k: int| 0 <= k < a.len() && a[k] == x;
            assert(b.contains(a[k]));
        }
    }
    vstd::set_lib::lemma_subset_equality(a.to_set(), b.to_set());
    assert forall|x: Handle| b.contains(x) implies a.contains(x) by {
        assert(b.to_set().contains(x));
        assert(a.to_set().contains(x));
    }
}

} // verus!
