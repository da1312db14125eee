//! The node tree of a model file as a forest: when no node has two parents
//! and there are no cycles, the skeleton built from the nodes holds every
//! node exactly once.

use vstd::prelude::*;

use crate::model::{has_parent, node_children_valid, node_walk, root_nodes, skeleton_walk, walk_nodes};

verus! {

/// No node is listed as a child twice, neither under two nodes nor twice
/// under one.
pub open spec fn unique_parents(ch: Seq<Seq<usize>>) -> bool {
    forall|i: int, k: int, i2: int, k2: int|
        0 <= i < ch.len() && 0 <= k < ch[i].len() && 0 <= i2 < ch.len() && 0 <= k2 < ch[i2].len()
            && #[trigger] ch[i][k] == #[trigger] ch[i2][k2] ==> i == i2 && k == k2
}

/// `h` gives every node a height below the node count, each child lower
/// than its parent (so the child lists form no cycle).
pub open spec fn heights(ch: Seq<Seq<usize>>, h: Seq<nat>) -> bool {
    &&& h.len() == ch.len()
    &&& forall|x: int| 0 <= x < h.len() ==> #[trigger] h[x] < ch.len()
    &&& forall|i: int, k: int| 0 <= i < ch.len() && 0 <= k < ch[i].len() ==> h[#[trigger] ch[i][k] as int] < h[i]
}

/// The child lists form a forest: every node has at most one parent and no
/// node is its own ancestor.
pub open spec fn is_forest(ch: Seq<Seq<usize>>) -> bool {
    &&& unique_parents(ch)
    &&& exists|h: Seq<nat>| heights(ch, h)
}

/// The nodes of `node_walk`, without the parent joints.
spec fn walk_order(ch: Seq<Seq<usize>>, list: Seq<usize>, f: nat) -> Seq<usize>
    decreases f, list.len(),
{
    if list.len() == 0 || f == 0 {
        Seq::empty()
    } else {
        seq![list[0]] + walk_order(ch, ch[list[0] as int], (f - 1) as nat) + walk_order(ch, list.drop_first(), f)
    }
}

proof fn lemma_walk_nodes_sub(ch: Seq<Seq<usize>>, list: Seq<usize>, parent: Option<usize>, base: nat, f: nat)
    ensures
        walk_nodes(node_walk(ch, list, parent, base, f)) == walk_order(ch, list, f),
    decreases f, list.len(),
{
    if list.len() == 0 || f == 0 {
        assert(walk_nodes(node_walk(ch, list, parent, base, f)) =~= Seq::<usize>::empty());
    } else {
        let below = node_walk(ch, ch[list[0] as int], Some(base as usize), base + 1, (f - 1) as nat);
        let rest = node_walk(ch, list.drop_first(), parent, base + 1 + below.len(), f);
        lemma_walk_nodes_sub(ch, ch[list[0] as int], Some(base as usize), base + 1, (f - 1) as nat);
        lemma_walk_nodes_sub(ch, list.drop_first(), parent, base + 1 + below.len(), f);
        assert(walk_nodes(seq![(list[0], parent)] + below + rest) =~= seq![list[0]] + walk_nodes(below)
            + walk_nodes(rest));
    }
}

/// The node that lists `y` as a child.
spec fn parent_of(ch: Seq<Seq<usize>>, y: int) -> int {
    (choose|i: int, k: int| 0 <= i < ch.len() && 0 <= k < ch[i].len() && #[trigger] ch[i][k] == y).0
}

/// Some node lists `y` as a child.
spec fn listed(ch: Seq<Seq<usize>>, y: int) -> bool {
    exists|i: int, k: int| 0 <= i < ch.len() && 0 <= k < ch[i].len() && #[trigger] ch[i][k] == y
}

/// The ancestor `k` levels above `y`, if there is one.
spec fn anc(ch: Seq<Seq<usize>>, y: int, k: nat) -> Option<int>
    decreases k,
{
    if k == 0 {
        Some(y)
    } else {
        match anc(ch, y, (k - 1) as nat) {
            Some(z) => if listed(ch, z) {
                Some(parent_of(ch, z))
            } else {
                None
            },
            None => None,
        }
    }
}

/// `y` lies in the tree under `x` (or is `x`).
spec fn in_desc(ch: Seq<Seq<usize>>, y: int, x: int) -> bool {
    exists|k: nat| #[trigger] anc(ch, y, k) == Some(x)
}

proof fn lemma_parent_of(ch: Seq<Seq<usize>>, y: int)
    requires
        listed(ch, y),
    ensures
        0 <= parent_of(ch, y) < ch.len(),
        exists|k: int| 0 <= k < ch[parent_of(ch, y)].len() && #[trigger] ch[parent_of(ch, y)][k] == y,
{
    let (i, k) = choose|i: int, k: int| 0 <= i < ch.len() && 0 <= k < ch[i].len() && #[trigger] ch[i][k] == y;
    assert(ch[i][k] == y);
}

/// The parent of a listed child is the node that lists it.
proof fn lemma_parent_is(ch: Seq<Seq<usize>>, p: int, k: int)
    requires
        unique_parents(ch),
        0 <= p < ch.len(),
        0 <= k < ch[p].len(),
    ensures
        listed(ch, ch[p][k] as int),
        parent_of(ch, ch[p][k] as int) == p,
        anc(ch, ch[p][k] as int, 1) == Some(p),
{
    let y = ch[p][k] as int;
    assert(ch[p][k] == y);
    assert(listed(ch, y));
    lemma_parent_of(ch, y);
    let (i, k2) = choose|i: int, k2: int| 0 <= i < ch.len() && 0 <= k2 < ch[i].len() && #[trigger] ch[i][k2] == y;
    assert(ch[i][k2] == ch[p][k]);
    assert(anc(ch, y, 0) == Some(y));
}

proof fn lemma_anc_compose(ch: Seq<Seq<usize>>, y: int, a: nat, b: nat)
    ensures
        anc(ch, y, a + b) == match anc(ch, y, a) {
            Some(z) => anc(ch, z, b),
            None => None,
        },
    decreases b,
{
    if b == 0 {
        assert(a + b == a);
        match anc(ch, y, a) {
            Some(z) => assert(anc(ch, z, 0) == Some(z)),
            None => {},
        }
    } else {
        lemma_anc_compose(ch, y, a, (b - 1) as nat);
        assert((a + b - 1) as nat == a + (b - 1) as nat);
    }
}

/// Going up, heights grow; ancestors are nodes of the table.
proof fn lemma_anc_higher(ch: Seq<Seq<usize>>, h: Seq<nat>, y: int, m: nat)
    requires
        node_children_valid(ch),
        heights(ch, h),
        0 <= y < ch.len(),
    ensures
        anc(ch, y, m) matches Some(w) ==> 0 <= w < ch.len() && (m >= 1 ==> h[w] > h[y]),
    decreases m,
{
    if m > 0 {
        lemma_anc_higher(ch, h, y, (m - 1) as nat);
        match anc(ch, y, (m - 1) as nat) {
            Some(z) => {
                if listed(ch, z) {
                    lemma_parent_of(ch, z);
                    let p = parent_of(ch, z);
                    let k = choose|k: int| 0 <= k < ch[p].len() && #[trigger] ch[p][k] == z;
                    assert(h[ch[p][k] as int] < h[p]);
                    assert(anc(ch, y, 0) == Some(y));
                }
            },
            None => {},
        }
    }
}

/// A node without a parent has no ancestor above it.
proof fn lemma_root_no_anc(ch: Seq<Seq<usize>>, r: int, m: nat)
    requires
        !listed(ch, r),
        m >= 1,
    ensures
        anc(ch, r, m) is None,
    decreases m,
{
    if m > 1 {
        lemma_root_no_anc(ch, r, (m - 1) as nat);
    } else {
        assert(anc(ch, r, 0) == Some(r));
    }
}

/// No node lies in the trees of two different nodes of `list`.
spec fn separate(ch: Seq<Seq<usize>>, list: Seq<usize>) -> bool {
    forall|a: int, b: int, y: int|
        #![trigger in_desc(ch, y, list[a] as int), in_desc(ch, y, list[b] as int)]
        0 <= a < list.len() && 0 <= b < list.len() && a != b
            ==> !(in_desc(ch, y, list[a] as int) && in_desc(ch, y, list[b] as int))
}

/// `y` under child `a` and under child `b` of the same node, `a` found
/// fewer levels up than `b`: impossible, it would put the parent above
/// itself.
proof fn lemma_siblings_ordered(ch: Seq<Seq<usize>>, h: Seq<nat>, p: int, a: int, b: int, y: int, ka: nat, kb: nat)
    requires
        node_children_valid(ch),
        unique_parents(ch),
        heights(ch, h),
        0 <= p < ch.len(),
        0 <= a < ch[p].len(),
        0 <= b < ch[p].len(),
        ka < kb,
    ensures
        !(anc(ch, y, ka) == Some(ch[p][a] as int) && anc(ch, y, kb) == Some(ch[p][b] as int)),
{
    if anc(ch, y, ka) == Some(ch[p][a] as int) && anc(ch, y, kb) == Some(ch[p][b] as int) {
        let xa = ch[p][a] as int;
        let xb = ch[p][b] as int;
        let d = (kb - ka) as nat;
        lemma_anc_compose(ch, y, ka, d);
        assert(ka + d == kb);
        assert(anc(ch, xa, d) == Some(xb));
        lemma_parent_is(ch, p, a);
        lemma_parent_is(ch, p, b);
        lemma_anc_compose(ch, xa, 1, (d - 1) as nat);
        assert(1 + (d - 1) as nat == d);
        assert(anc(ch, p, (d - 1) as nat) == Some(xb));
        lemma_anc_compose(ch, p, (d - 1) as nat, 1);
        assert((d - 1) as nat + 1 == d);
        assert(anc(ch, p, d) == Some(p));
        lemma_anc_higher(ch, h, p, d);
    }
}

/// The trees of two different children of one node share no node.
proof fn lemma_siblings_separate(ch: Seq<Seq<usize>>, h: Seq<nat>, p: int)
    requires
        node_children_valid(ch),
        unique_parents(ch),
        heights(ch, h),
        0 <= p < ch.len(),
    ensures
        separate(ch, ch[p]),
{
    assert forall|a: int, b: int, y: int|
        0 <= a < ch[p].len() && 0 <= b < ch[p].len() && a != b
        implies !(in_desc(ch, y, ch[p][a] as int) && in_desc(ch, y, ch[p][b] as int)) by {
        if in_desc(ch, y, ch[p][a] as int) && in_desc(ch, y, ch[p][b] as int) {
            let ka = choose|k: nat| #[trigger] anc(ch, y, k) == Some(ch[p][a] as int);
            let kb = choose|k: nat| #[trigger] anc(ch, y, k) == Some(ch[p][b] as int);
            if ka == kb {
                assert(ch[p][a] == ch[p][b]);
            } else if ka < kb {
                lemma_siblings_ordered(ch, h, p, a, b, y, ka, kb);
            } else {
                lemma_siblings_ordered(ch, h, p, b, a, y, kb, ka);
            }
        }
    }
}

/// The trees of two different roots share no node.
proof fn lemma_roots_separate(ch: Seq<Seq<usize>>, roots: Seq<usize>)
    requires
        roots.no_duplicates(),
        forall|a: int| 0 <= a < roots.len() ==> !listed(ch, #[trigger] roots[a] as int),
    ensures
        separate(ch, roots),
{
    assert forall|a: int, b: int, y: int|
        0 <= a < roots.len() && 0 <= b < roots.len() && a != b
        implies !(in_desc(ch, y, roots[a] as int) && in_desc(ch, y, roots[b] as int)) by {
        if in_desc(ch, y, roots[a] as int) && in_desc(ch, y, roots[b] as int) {
            let ka = choose|k: nat| #[trigger] anc(ch, y, k) == Some(roots[a] as int);
            let kb = choose|k: nat| #[trigger] anc(ch, y, k) == Some(roots[b] as int);
            if ka == kb {
            } else if ka < kb {
                lemma_anc_compose(ch, y, ka, (kb - ka) as nat);
                assert(ka + (kb - ka) as nat == kb);
                lemma_root_no_anc(ch, roots[a] as int, (kb - ka) as nat);
            } else {
                lemma_anc_compose(ch, y, kb, (ka - kb) as nat);
                assert(kb + (ka - kb) as nat == ka);
                lemma_root_no_anc(ch, roots[b] as int, (ka - kb) as nat);
            }
        }
    }
}

/// `y` is under `x` exactly when it is `x` or under one of its children.
proof fn lemma_desc_step(ch: Seq<Seq<usize>>, x: int, y: int)
    requires
        unique_parents(ch),
        0 <= x < ch.len(),
    ensures
        in_desc(ch, y, x) <==> (y == x || exists|a: int| 0 <= a < ch[x].len() && #[trigger] in_desc(ch, y, ch[x][a] as int)),
{
    if in_desc(ch, y, x) {
        let k = choose|k: nat| #[trigger] anc(ch, y, k) == Some(x);
        if k > 0 {
            let z = anc(ch, y, (k - 1) as nat)->0;
            assert(anc(ch, y, (k - 1) as nat) is Some);
            assert(listed(ch, z) && parent_of(ch, z) == x);
            lemma_parent_of(ch, z);
            let a = choose|a: int| 0 <= a < ch[x].len() && #[trigger] ch[x][a] == z;
            assert(anc(ch, y, (k - 1) as nat) == Some(ch[x][a] as int));
            assert(in_desc(ch, y, ch[x][a] as int));
        }
    }
    if y == x {
        assert(anc(ch, y, 0) == Some(x));
    }
    if exists|a: int| 0 <= a < ch[x].len() && #[trigger] in_desc(ch, y, ch[x][a] as int) {
        let a = choose|a: int| 0 <= a < ch[x].len() && #[trigger] in_desc(ch, y, ch[x][a] as int);
        let k = choose|k: nat| #[trigger] anc(ch, y, k) == Some(ch[x][a] as int);
        lemma_parent_is(ch, x, a);
        lemma_anc_compose(ch, y, k, 1);
        assert(anc(ch, y, k + 1) == Some(x));
    }
}

/// The walk from a list of nodes whose trees are apart holds each node of
/// those trees once, and nothing else.
proof fn lemma_walk_order(ch: Seq<Seq<usize>>, h: Seq<nat>, list: Seq<usize>, f: nat)
    requires
        node_children_valid(ch),
        unique_parents(ch),
        heights(ch, h),
        forall|a: int| 0 <= a < list.len() ==> #[trigger] list[a] < ch.len() && h[list[a] as int] < f,
        separate(ch, list),
    ensures
        walk_order(ch, list, f).no_duplicates(),
        forall|j: int| 0 <= j < walk_order(ch, list, f).len() ==> #[trigger] walk_order(ch, list, f)[j] < ch.len(),
        forall|y: usize| walk_order(ch, list, f).contains(y) <==> exists|a: int|
            0 <= a < list.len() && #[trigger] in_desc(ch, y as int, list[a] as int),
    decreases f, list.len(),
{
    let w = walk_order(ch, list, f);
    if list.len() == 0 {
        assert(w =~= Seq::<usize>::empty());
    } else {
        assert(h[list[0] as int] < f);
        let x = list[0];
        let kids = ch[x as int];
        let rest = list.drop_first();
        assert forall|a: int| 0 <= a < kids.len() implies #[trigger] kids[a] < ch.len() && h[kids[a] as int] < (f - 1) as nat by {
            assert(h[ch[x as int][a] as int] < h[x as int]);
        }
        lemma_siblings_separate(ch, h, x as int);
        assert forall|a: int, b: int, y: int|
            0 <= a < rest.len() && 0 <= b < rest.len() && a != b
            implies !(in_desc(ch, y, rest[a] as int) && in_desc(ch, y, rest[b] as int)) by {
            assert(rest[a] == list[a + 1] && rest[b] == list[b + 1]);
        }
        assert forall|a: int| 0 <= a < rest.len() implies #[trigger] rest[a] < ch.len() && h[rest[a] as int] < f by {
            assert(rest[a] == list[a + 1]);
        }
        lemma_walk_order(ch, h, kids, (f - 1) as nat);
        lemma_walk_order(ch, h, rest, f);
        let wk = walk_order(ch, kids, (f - 1) as nat);
        let wr = walk_order(ch, rest, f);
        assert(w == seq![x] + wk + wr);
        assert(anc(ch, x as int, 0) == Some(x as int));
        // x is not in the trees of its children
        assert forall|j: int| 0 <= j < wk.len() implies wk[j] != x by {
            if wk[j] == x {
                assert(wk.contains(x));
                let a = choose|a: int| 0 <= a < kids.len() && #[trigger] in_desc(ch, x as int, kids[a] as int);
                let k = choose|k: nat| #[trigger] anc(ch, x as int, k) == Some(kids[a] as int);
                lemma_parent_is(ch, x as int, a);
                lemma_anc_compose(ch, x as int, k, 1);
                lemma_anc_higher(ch, h, x as int, k + 1);
            }
        }
        // x is not in the trees of the rest of the list
        assert forall|j: int| 0 <= j < wr.len() implies wr[j] != x by {
            if wr[j] == x {
                assert(wr.contains(x));
                let b = choose|b: int| 0 <= b < rest.len() && #[trigger] in_desc(ch, x as int, rest[b] as int);
                assert(rest[b] == list[b + 1]);
                assert(in_desc(ch, x as int, list[0] as int));
            }
        }
        // the children's trees and the rest's trees are apart
        assert forall|i: int, j: int| 0 <= i < wk.len() && 0 <= j < wr.len() implies wk[i] != wr[j] by {
            if wk[i] == wr[j] {
                let y = wk[i];
                assert(wk.contains(y));
                assert(wr.contains(y));
                let a = choose|a: int| 0 <= a < kids.len() && #[trigger] in_desc(ch, y as int, kids[a] as int);
                let b = choose|b: int| 0 <= b < rest.len() && #[trigger] in_desc(ch, y as int, rest[b] as int);
                lemma_desc_step(ch, x as int, y as int);
                assert(rest[b] == list[b + 1]);
                assert(in_desc(ch, y as int, list[0] as int));
            }
        }
        vstd::seq_lib::lemma_no_dup_in_concat(seq![x], wk);
        vstd::seq_lib::lemma_no_dup_in_concat(seq![x] + wk, wr);
        assert forall|y: usize| w.contains(y) <==> exists|a: int|
            0 <= a < list.len() && #[trigger] in_desc(ch, y as int, list[a] as int) by {
            lemma_desc_step(ch, x as int, y as int);
            if w.contains(y) {
                let j = choose|j: int| 0 <= j < w.len() && w[j] == y;
                if j == 0 {
                    assert(in_desc(ch, y as int, list[0] as int));
                } else if j < 1 + wk.len() {
                    assert(wk[j - 1] == y);
                    assert(wk.contains(y));
                    assert(in_desc(ch, y as int, list[0] as int));
                } else {
                    assert(wr[j - 1 - wk.len()] == y);
                    assert(wr.contains(y));
                    let b = choose|b: int| 0 <= b < rest.len() && #[trigger] in_desc(ch, y as int, rest[b] as int);
                    assert(rest[b] == list[b + 1]);
                    assert(in_desc(ch, y as int, list[b + 1] as int));
                }
            }
            if exists|a: int| 0 <= a < list.len() && #[trigger] in_desc(ch, y as int, list[a] as int) {
                let a = choose|a: int| 0 <= a < list.len() && #[trigger] in_desc(ch, y as int, list[a] as int);
                if a == 0 {
                    if y == x {
                        assert(w[0] == y);
                    } else {
                        assert(wk.contains(y));
                        let j = choose|j: int| 0 <= j < wk.len() && wk[j] == y;
                        assert(w[1 + j] == y);
                    }
                } else {
                    assert(rest[a - 1] == list[a]);
                    assert(in_desc(ch, y as int, rest[a - 1] as int));
                    assert(wr.contains(y));
                    let j = choose|j: int| 0 <= j < wr.len() && wr[j] == y;
                    assert(w[1 + wk.len() + j] == y);
                }
            }
        }
        assert forall|j: int| 0 <= j < w.len() implies #[trigger] w[j] < ch.len() by {
            if j == 0 {
            } else if j < 1 + wk.len() {
                assert(w[j] == wk[j - 1]);
            } else {
                assert(w[j] == wr[j - 1 - wk.len()]);
            }
        }
    }
}

/// Every node is under some root: its chain of parents ends at a node
/// without a parent.
proof fn lemma_reaches_root(ch: Seq<Seq<usize>>, h: Seq<nat>, y: int) -> (r: (nat, int))
    requires
        node_children_valid(ch),
        heights(ch, h),
        0 <= y < ch.len(),
    ensures
        anc(ch, y, r.0) == Some(r.1),
        0 <= r.1 < ch.len(),
        !listed(ch, r.1),
    decreases ch.len() - h[y],
{
    assert(anc(ch, y, 0) == Some(y));
    if !listed(ch, y) {
        (0, y)
    } else {
        lemma_parent_of(ch, y);
        let p = parent_of(ch, y);
        assert(anc(ch, y, 1) == Some(p));
        lemma_anc_higher(ch, h, y, 1);
        assert(h[p] < ch.len());
        let (k, r) = lemma_reaches_root(ch, h, p);
        lemma_anc_compose(ch, y, 1, k);
        (1 + k, r)
    }
}

proof fn lemma_listed_has_parent(ch: Seq<Seq<usize>>, x: usize)
    ensures
        listed(ch, x as int) == has_parent(ch, x),
{
    if listed(ch, x as int) {
        let (i, k) = choose|i: int, k: int| 0 <= i < ch.len() && 0 <= k < ch[i].len() && #[trigger] ch[i][k] == x as int;
        assert(ch[i][k] == x);
    }
    if has_parent(ch, x) {
        let (i, k) = choose|i: int, k: int| 0 <= i < ch.len() && 0 <= k < ch[i].len() && #[trigger] ch[i][k] == x;
        assert(ch[i][k] == x as int);
    }
}

/// The roots among the first `k` nodes: in increasing order, each without
/// a parent, and every such node among them.
proof fn lemma_root_nodes(ch: Seq<Seq<usize>>, k: nat)
    requires
        k <= usize::MAX + 1,
    ensures
        forall|a: int, b: int| 0 <= a < b < root_nodes(ch, k).len() ==> root_nodes(ch, k)[a] < root_nodes(ch, k)[b],
        forall|a: int| 0 <= a < root_nodes(ch, k).len() ==> #[trigger] root_nodes(ch, k)[a] < k
            && !has_parent(ch, root_nodes(ch, k)[a]),
        forall|x: usize| x < k && !has_parent(ch, x) ==> #[trigger] root_nodes(ch, k).contains(x),
    decreases k,
{
    if k > 0 {
        lemma_root_nodes(ch, (k - 1) as nat);
        let prev = root_nodes(ch, (k - 1) as nat);
        let last = (k - 1) as usize;
        assert forall|x: usize| x < k && !has_parent(ch, x) implies #[trigger] root_nodes(ch, k).contains(x) by {
            if x < k - 1 {
                assert(prev.contains(x));
                let j = choose|j: int| 0 <= j < prev.len() && prev[j] == x;
                assert(root_nodes(ch, k)[j] == x);
            } else {
                assert(x == last);
                assert(root_nodes(ch, k) == prev.push(last));
                assert(root_nodes(ch, k)[prev.len() as int] == x);
            }
        }
    }
}

/// When the node table is a forest, the skeleton built from it
/// (`create_skeleton_from_nodes`) has every node as a joint exactly once:
/// the walk from the roots lists each node of the table once and nothing
/// else.
pub proof fn law_forest_nodes_become_joints_once(children: Seq<Seq<usize>>)
    requires
        children.len() <= usize::MAX,
        node_children_valid(children),
        is_forest(children),
    ensures
        walk_nodes(skeleton_walk(children)).no_duplicates(),
        forall|x: usize| #[trigger] walk_nodes(skeleton_walk(children)).contains(x) <==> x < children.len(),
{
    let ch = children;
    let n = ch.len();
    let h = choose|h: Seq<nat>| heights(ch, h);
    let roots = root_nodes(ch, n);
    lemma_root_nodes(ch, n);
    assert forall|a: int| 0 <= a < roots.len() implies !listed(ch, #[trigger] roots[a] as int) by {
        lemma_listed_has_parent(ch, roots[a]);
    }
    assert(roots.no_duplicates());
    lemma_roots_separate(ch, roots);
    assert forall|a: int| 0 <= a < roots.len() implies #[trigger] roots[a] < ch.len() && h[roots[a] as int] < n by {
        assert(roots[a] < n);
    }
    lemma_walk_order(ch, h, roots, n);
    lemma_walk_nodes_sub(ch, roots, None, 0, n);
    let w = walk_order(ch, roots, n);
    assert(walk_nodes(skeleton_walk(ch)) == w);
    assert forall|x: usize| #[trigger] w.contains(x) <==> x < n by {
        if w.contains(x) {
            let j = choose|j: int| 0 <= j < w.len() && w[j] == x;
            assert(w[j] < n);
        }
        if x < n {
            let (k, r) = lemma_reaches_root(ch, h, x as int);
            lemma_listed_has_parent(ch, r as usize);
            assert(roots.contains(r as usize));
            let a = choose|a: int| 0 <= a < roots.len() && roots[a] == r as usize;
            assert(in_desc(ch, x as int, roots[a] as int));
        }
    }
}

} // verus!
