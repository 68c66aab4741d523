//! An append-only arena of lineage nodes linked by parent and child indices.
use vstd::prelude::*;

verus! {

/// A node of the arena: its payload, its site label, the index of its parent
/// (absent only for the root) and its children with their branch lengths, in
/// the order in which they were added.
#[derive(Debug)]
pub struct Node<N, L, D> {
    pub data: N,
    pub label: L,
    pub parent: Option<usize>,
    pub children: Vec<(usize, D)>,
}

impl<N, L, D> Node<N, L, D> {
    /// A node without parent and without children.
    pub fn root(data: N, label: L) -> (r: Self)
        ensures
            r.data == data,
            r.label == label,
            r.parent is None,
            r.children@.len() == 0,
    {
        Node { data, label, parent: None, children: Vec::new() }
    }

    /// Replaces the label and keeps everything else.
    pub fn update_label(&mut self, l: L)
        ensures
            final(self).label == l,
            final(self).data == old(self).data,
            final(self).parent == old(self).parent,
            final(self).children@ == old(self).children@,
    {
        self.label = l;
    }
}

/// A detached nested tree: a payload and its subtrees, each with the branch
/// length that leads to it.
#[derive(Debug)]
pub struct Tree<N, D> {
    pub node: N,
    pub children: Vec<(Tree<N, D>, Option<D>)>,
}

impl<N, D> Tree<N, D> {
    /// A tree from a payload and its subtrees.
    pub fn new(node: N, children: Vec<(Tree<N, D>, Option<D>)>) -> (r: Self)
        ensures
            r.node == node,
            r.children@ == children@,
    {
        Tree { node, children }
    }

    /// A tree without subtrees.
    pub fn new_leaf(node: N) -> (r: Self)
        ensures
            r.node == node,
            r.children@.len() == 0,
    {
        Tree { node, children: Vec::new() }
    }

    /// A tree whose root `parent` has the subtrees `l` and `r`, in that
    /// order, at the given branch lengths.
    pub fn join_with_parent(parent: N, l: Self, ld: D, r: Self, rd: D) -> (t: Self)
        ensures
            t.node == parent,
            t.children@ == seq![(l, Some(ld)), (r, Some(rd))],
    {
        let mut children: Vec<(Tree<N, D>, Option<D>)> = Vec::new();
        children.push((l, Some(ld)));
        children.push((r, Some(rd)));
        Tree { node: parent, children }
    }
}

/// `t` is the subtree of the arena below node `i`: the same payload, and for
/// each child in order a subtree of that child with its branch length.
pub open spec fn subtree_of<N, L, D>(t: Tree<N, D>, nodes: Seq<Node<N, L, D>>, i: int) -> bool
    decreases nodes.len() - i,
{
    &&& 0 <= i < nodes.len()
    &&& t.node == nodes[i].data
    &&& t.children@.len() == nodes[i].children@.len()
    &&& forall|k: int|
        #![trigger t.children@[k]]
        0 <= k < t.children@.len() ==> {
            let c = nodes[i].children@[k].0 as int;
            &&& i < c < nodes.len()
            &&& t.children@[k].1 == Some(nodes[i].children@[k].1)
            &&& subtree_of(t.children@[k].0, nodes, c)
        }
}

/// A lineage tree held as an arena: node `0` is the root, and every other node
/// was appended under a node that already existed.
#[derive(Debug)]
pub struct Phylogeny<N, L, D> {
    pub nodes: Vec<Node<N, L, D>>,
    pub root_length: D,
    pub root: usize,
}

/// The edges out of node `p`, as (parent, child, branch length).
pub open spec fn child_edges<N, L, D>(p: int, node: Node<N, L, D>) -> Seq<(usize, usize, D)> {
    node.children@.map_values(|e: (usize, D)| (p as usize, e.0, e.1))
}

/// The edges out of the first `m` nodes, node by node, and within a node in
/// the order in which its children were added.
pub open spec fn edges_upto<N, L, D>(nodes: Seq<Node<N, L, D>>, m: int) -> Seq<(usize, usize, D)>
    decreases m,
{
    if m <= 0 {
        seq![]
    } else {
        edges_upto(nodes, m - 1) + child_edges(m - 1, nodes[m - 1])
    }
}

/// Every edge of the arena.
pub open spec fn edges_of<N, L, D>(nodes: Seq<Node<N, L, D>>) -> Seq<(usize, usize, D)> {
    edges_upto(nodes, nodes.len() as int)
}

/// The indices of the nodes among the first `m` that have no children, in
/// creation order.
pub open spec fn leaves_upto<N, L, D>(nodes: Seq<Node<N, L, D>>, m: int) -> Seq<usize>
    decreases m,
{
    if m <= 0 {
        seq![]
    } else if nodes[m - 1].children@.len() == 0 {
        leaves_upto(nodes, m - 1).push((m - 1) as usize)
    } else {
        leaves_upto(nodes, m - 1)
    }
}

/// The indices of the childless nodes of the arena, in creation order.
pub open spec fn leaves_of<N, L, D>(nodes: Seq<Node<N, L, D>>) -> Seq<usize> {
    leaves_upto(nodes, nodes.len() as int)
}

/// The arena is a tree rooted at node `0`: each other node has an older
/// parent and is listed among that parent's children, lists of children are
/// in creation order, each listed child names that parent back, and there is
/// exactly one edge per non-root node.
#[verifier::opaque]
pub open spec fn arena_wf<N, L, D>(nodes: Seq<Node<N, L, D>>) -> bool {
    &&& nodes.len() >= 1
    &&& nodes[0].parent is None
    &&& forall|j: int|
        #![trigger nodes[j].parent]
        1 <= j < nodes.len() ==> (nodes[j].parent matches Some(p) && (p as int) < j)
    &&& forall|p: int, k: int|
        #![trigger nodes[p].children@[k]]
        0 <= p < nodes.len() && 0 <= k < nodes[p].children@.len() ==> {
            let c = nodes[p].children@[k].0 as int;
            &&& p < c < nodes.len()
            &&& nodes[c].parent == Some(p as usize)
        }
    &&& forall|p: int, k1: int, k2: int|
        #![trigger nodes[p].children@[k1], nodes[p].children@[k2]]
        0 <= p < nodes.len() && 0 <= k1 < k2 < nodes[p].children@.len()
            ==> nodes[p].children@[k1].0 < nodes[p].children@[k2].0
    &&& forall|j: int|
        #![trigger nodes[j].parent]
        1 <= j < nodes.len() ==> exists|k: int|
            #![trigger nodes[nodes[j].parent->Some_0 as int].children@[k]]
            0 <= k < nodes[nodes[j].parent->Some_0 as int].children@.len()
                && nodes[nodes[j].parent->Some_0 as int].children@[k].0 == j
    &&& edges_of(nodes).len() == nodes.len() - 1
}

/// Appending one child to node `p` adds one edge to every prefix that holds `p`.
proof fn lemma_edges_upto_len_after_push<N, L, D>(
    nodes: Seq<Node<N, L, D>>,
    nodes2: Seq<Node<N, L, D>>,
    p: int,
    m: int,
)
    requires
        0 <= p < nodes.len(),
        0 <= m <= nodes.len(),
        nodes.len() <= nodes2.len(),
        nodes2[p].children@.len() == nodes[p].children@.len() + 1,
        forall|i: int| 0 <= i < nodes.len() && i != p ==> nodes2[i].children@ == nodes[i].children@,
    ensures
        edges_upto(nodes2, m).len() == edges_upto(nodes, m).len() + if m > p { 1int } else { 0int },
    decreases m,
{
    if m > 0 {
        lemma_edges_upto_len_after_push(nodes, nodes2, p, m - 1);
    }
}

impl<N, L, D> Phylogeny<N, L, D> {
    pub open spec fn wf(&self) -> bool {
        &&& self.root == 0
        &&& arena_wf(self.nodes@)
    }

    /// An arena that holds only `root`, with the branch length leading to it.
    pub fn new(root: Node<N, L, D>, root_length: D) -> (r: Self)
        requires
            root.parent is None,
            root.children@.len() == 0,
        ensures
            r.wf(),
            r.nodes@ == seq![root],
            r.root_length == root_length,
    {
        let mut nodes: Vec<Node<N, L, D>> = Vec::new();
        nodes.push(root);
        let r = Phylogeny { nodes, root_length, root: 0 };
        reveal(arena_wf);
        assert(edges_upto(r.nodes@, 1) == edges_upto(r.nodes@, 0) + child_edges(0, r.nodes@[0]));
        r
    }
    /// Appends a node under `parent` with the given branch length and returns
    /// its index, which is the former node count.
    pub fn add_child(&mut self, parent: usize, data: N, label: L, dist: D) -> (id: usize)
        requires
            old(self).wf(),
            parent < old(self).nodes@.len(),
            old(self).nodes@.len() < usize::MAX,
        ensures
            final(self).wf(),
            id == old(self).nodes@.len(),
            final(self).root_length == old(self).root_length,
            final(self).nodes@.len() == id + 1,
            final(self).nodes@[id as int].data == data,
            final(self).nodes@[id as int].label == label,
            final(self).nodes@[id as int].parent == Some(parent),
            final(self).nodes@[id as int].children@.len() == 0,
            final(self).nodes@[parent as int].data == old(self).nodes@[parent as int].data,
            final(self).nodes@[parent as int].label == old(self).nodes@[parent as int].label,
            final(self).nodes@[parent as int].parent == old(self).nodes@[parent as int].parent,
            final(self).nodes@[parent as int].children@ == old(self).nodes@[parent as int].children@.push((id, dist)),
            forall|i: int| 0 <= i < id && i != parent ==> final(self).nodes@[i] == old(self).nodes@[i],
    {
        reveal(arena_wf);
        let ghost old_nodes = self.nodes@;
        let id = self.nodes.len();
        self.nodes.push(Node { data, label, parent: Some(parent), children: Vec::new() });
        self.nodes[parent].children.push((id, dist));
        let ghost nodes = self.nodes@;
        assert(forall|i: int| 0 <= i < id && i != parent ==> nodes[i] == old_nodes[i]);
        assert forall|p: int, k: int|
            #![trigger nodes[p].children@[k]]
            0 <= p < nodes.len() && 0 <= k < nodes[p].children@.len() implies {
                let c = nodes[p].children@[k].0 as int;
                &&& p < c < nodes.len()
                &&& nodes[c].parent == Some(p as usize)
            } by {
            if p != parent && p != id {
                assert(nodes[p].children@[k] == old_nodes[p].children@[k]);
            }
            if p == parent && k < old_nodes[p].children@.len() {
                assert(nodes[p].children@[k] == old_nodes[p].children@[k]);
            }
        }
        assert forall|p: int, k1: int, k2: int|
            #![trigger nodes[p].children@[k1], nodes[p].children@[k2]]
            0 <= p < nodes.len() && 0 <= k1 < k2 < nodes[p].children@.len()
                implies nodes[p].children@[k1].0 < nodes[p].children@[k2].0 by {
            if p != parent && p != id {
                assert(nodes[p].children@[k1] == old_nodes[p].children@[k1]);
                assert(nodes[p].children@[k2] == old_nodes[p].children@[k2]);
            }
            if p == parent {
                assert(nodes[p].children@[k1] == old_nodes[p].children@[k1]);
                if k2 < old_nodes[p].children@.len() {
                    assert(nodes[p].children@[k2] == old_nodes[p].children@[k2]);
                }
            }
        }
        assert forall|j: int|
            #![trigger nodes[j].parent]
            1 <= j < nodes.len() implies exists|k: int|
                #![trigger nodes[nodes[j].parent->Some_0 as int].children@[k]]
                0 <= k < nodes[nodes[j].parent->Some_0 as int].children@.len()
                    && nodes[nodes[j].parent->Some_0 as int].children@[k].0 == j by {
            if j == id {
                let k = old_nodes[parent as int].children@.len() as int;
                assert(nodes[parent as int].children@[k].0 == j);
            } else {
                let p = old_nodes[j].parent->Some_0 as int;
                assert(nodes[j].parent == old_nodes[j].parent);
                let k = choose|k: int|
                    #![trigger old_nodes[p].children@[k]]
                    0 <= k < old_nodes[p].children@.len() && old_nodes[p].children@[k].0 == j;
                assert(nodes[p].children@[k] == old_nodes[p].children@[k]);
            }
        }
        proof {
            lemma_edges_upto_len_after_push(old_nodes, nodes, parent as int, id as int);
        }
        assert(edges_upto(nodes, id + 1) == edges_upto(nodes, id as int) + child_edges(id as int, nodes[id as int]));
        id
    }
    /// The indices of the nodes without children, in creation order.
    pub fn leaves(&self) -> (r: Vec<usize>)
        ensures
            r@ == leaves_of(self.nodes@),
    {
        let mut r: Vec<usize> = Vec::new();
        let mut i: usize = 0;
        while i < self.nodes.len()
            invariant
                i <= self.nodes@.len(),
                r@ == leaves_upto(self.nodes@, i as int),
            decreases self.nodes@.len() - i,
        {
            if self.nodes[i].children.len() == 0 {
                r.push(i);
            }
            i += 1;
        }
        r
    }

    /// Each node's index with its label, in creation order.
    pub fn vertex_labels(&self) -> (r: Vec<(usize, L)>)
        where
            L: Copy,
        ensures
            r@.len() == self.nodes@.len(),
            forall|i: int| 0 <= i < r@.len() ==> #[trigger] r@[i] == (i as usize, self.nodes@[i].label),
    {
        let mut r: Vec<(usize, L)> = Vec::new();
        let mut i: usize = 0;
        while i < self.nodes.len()
            invariant
                i <= self.nodes@.len(),
                r@.len() == i,
                forall|j: int| 0 <= j < i ==> #[trigger] r@[j] == (j as usize, self.nodes@[j].label),
            decreases self.nodes@.len() - i,
        {
            r.push((i, self.nodes[i].label));
            i += 1;
        }
        r
    }

    /// Each leaf's ordinal among the leaves with its label, in creation order.
    pub fn leaf_labels(&self) -> (r: Vec<(usize, L)>)
        where
            L: Copy,
        requires
            self.wf(),
        ensures
            r@.len() == leaves_of(self.nodes@).len(),
            forall|i: int|
                0 <= i < r@.len() ==> #[trigger] r@[i] == (
                    i as usize,
                    self.nodes@[leaves_of(self.nodes@)[i] as int].label,
                ),
    {
        let leaves = self.leaves();
        let n = self.nodes.len();
        proof {
            lemma_leaves_in_range(self.nodes@, self.nodes@.len() as int);
        }
        let mut r: Vec<(usize, L)> = Vec::new();
        let mut i: usize = 0;
        while i < leaves.len()
            invariant
                leaves@ == leaves_of(self.nodes@),
                forall|j: int| 0 <= j < leaves@.len() ==> (#[trigger] leaves@[j] as int) < self.nodes@.len(),
                i <= leaves@.len(),
                r@.len() == i,
                forall|j: int|
                    0 <= j < i ==> #[trigger] r@[j] == (j as usize, self.nodes@[leaves@[j] as int].label),
            decreases leaves@.len() - i,
        {
            r.push((i, self.nodes[leaves[i]].label));
            i += 1;
        }
        r
    }

    /// Every edge as (parent, child, branch length): nodes in creation order,
    /// and within a node its children in the order in which they were added.
    pub fn edges(&self) -> (r: Vec<(usize, usize, D)>)
        where
            D: Copy,
        ensures
            r@ == edges_of(self.nodes@),
    {
        let mut r: Vec<(usize, usize, D)> = Vec::new();
        let mut i: usize = 0;
        while i < self.nodes.len()
            invariant
                i <= self.nodes@.len(),
                r@ == edges_upto(self.nodes@, i as int),
            decreases self.nodes@.len() - i,
        {
            let children = &self.nodes[i].children;
            let ghost before = r@;
            let mut k: usize = 0;
            while k < children.len()
                invariant
                    i < self.nodes@.len(),
                    children == &self.nodes@[i as int].children,
                    k <= children@.len(),
                    r@ == before + child_edges(i as int, self.nodes@[i as int]).take(k as int),
                decreases children@.len() - k,
            {
                let (c, len) = children[k];
                r.push((i, c, len));
                k += 1;
                assert(child_edges(i as int, self.nodes@[i as int]).take(k as int)
                    =~= child_edges(i as int, self.nodes@[i as int]).take(k - 1) .push((i, c, len)));
            }
            assert(child_edges(i as int, self.nodes@[i as int]).take(k as int)
                =~= child_edges(i as int, self.nodes@[i as int]));
            i += 1;
        }
        r
    }
    /// The whole arena as a detached nested tree rooted at node `0`. The
    /// subtrees are assembled from the newest node down to the root, so no
    /// recursion is needed however deep the tree is.
    pub fn to_tree(&self) -> (t: Tree<N, D>)
        where
            N: Copy,
            D: Copy,
        requires
            self.wf(),
        ensures
            subtree_of(t, self.nodes@, 0),
    {
        reveal(arena_wf);
        let ghost nodes = self.nodes@;
        let n = self.nodes.len();
        let mut built: Vec<Option<Tree<N, D>>> = Vec::new();
        let mut i: usize = 0;
        while i < n
            invariant
                n == nodes.len(),
                i <= n,
                built@.len() == i,
            decreases n - i,
        {
            built.push(None);
            i += 1;
        }
        // Nodes `i ..` are built; the subtree of such a node waits in `built`
        // until its parent, which is older, takes it.
        while i > 0
            invariant
                nodes == self.nodes@,
                arena_wf(nodes),
                n == nodes.len(),
                i <= n,
                built@.len() == n,
                forall|j: int|
                    #![trigger built@[j]]
                    i <= j < n && (nodes[j].parent matches Some(p) ==> p < i) ==> (built@[j] matches Some(
                        t,
                    ) && subtree_of(t, nodes, j)),
            decreases i,
        {
            i -= 1;
            reveal(arena_wf);
            let node = &self.nodes[i];
            let ghost kids_of = node.children@;
            let mut kids: Vec<(Tree<N, D>, Option<D>)> = Vec::new();
            let mut k: usize = 0;
            while k < node.children.len()
                invariant
                    nodes == self.nodes@,
                    arena_wf(nodes),
                    n == nodes.len(),
                    i < n,
                    node == &nodes[i as int],
                    built@.len() == n,
                    k <= node.children@.len(),
                    kids@.len() == k,
                    forall|q: int|
                        #![trigger kids@[q]]
                        0 <= q < k ==> {
                            let c = node.children@[q].0 as int;
                            &&& i < c < nodes.len()
                            &&& kids@[q].1 == Some(node.children@[q].1)
                            &&& subtree_of(kids@[q].0, nodes, c)
                        },
                    forall|j: int|
                        #![trigger built@[j]]
                        i < j < n && (nodes[j].parent matches Some(p) ==> (p < i || (p == i && k < node.children@.len() && node.children@[k as int].0 <= j))) ==> (
                        built@[j] matches Some(t) && subtree_of(t, nodes, j)),
                decreases node.children@.len() - k,
            {
                let (c, len) = node.children[k];
                reveal(arena_wf);
                proof {
                    assert(node.children@[k as int].0 == c);
                    assert(nodes[c as int].parent == Some(i));
                }
                let sub = built[c].take();
                match sub {
                    Some(t) => {
                        kids.push((t, Some(len)));
                    },
                    None => {},
                }
                k += 1;
                proof {
                    assert forall|j: int|
                        #![trigger built@[j]]
                        i < j < n && (nodes[j].parent matches Some(p) ==> (p < i || (p == i && k < node.children@.len() && node.children@[k as int].0 <= j))) implies (
                        built@[j] matches Some(t) && subtree_of(t, nodes, j)) by {
                        if k < node.children@.len() {
                            assert(nodes[i as int].children@[k - 1].0 < nodes[i as int].children@[k as int].0);
                        }
                    }
                }
            }
            let t = Tree { node: node.data, children: kids };
            proof {
                assert(subtree_of(t, nodes, i as int));
            }
            built.set(i, Some(t));
        }
        match built[0].take() {
            Some(t) => t,
            None => Tree { node: self.nodes[0].data, children: Vec::new() },
        }
    }
}

/// In a well-formed arena there is one edge per node but the root, and each
/// such node is listed exactly once among the children of its parent and
/// among those of no other node.
pub proof fn lemma_arena_is_tree<N, L, D>(t: Phylogeny<N, L, D>, j: int)
    requires
        t.wf(),
        1 <= j < t.nodes@.len(),
    ensures
        edges_of(t.nodes@).len() == t.nodes@.len() - 1,
        t.nodes@[j].parent is Some,
        exists|k: int|
            #![trigger t.nodes@[t.nodes@[j].parent->Some_0 as int].children@[k]]
            0 <= k < t.nodes@[t.nodes@[j].parent->Some_0 as int].children@.len()
                && t.nodes@[t.nodes@[j].parent->Some_0 as int].children@[k].0 == j,
        forall|p: int, k: int|
            0 <= p < t.nodes@.len() && 0 <= k < t.nodes@[p].children@.len()
                && #[trigger] t.nodes@[p].children@[k].0 == j ==> p == t.nodes@[j].parent->Some_0,
        forall|p: int, k1: int, k2: int|
            0 <= p < t.nodes@.len() && 0 <= k1 < t.nodes@[p].children@.len() && 0 <= k2
                < t.nodes@[p].children@.len() && #[trigger] t.nodes@[p].children@[k1].0 == j
                && #[trigger] t.nodes@[p].children@[k2].0 == j ==> k1 == k2,
{
    reveal(arena_wf);
    let nodes = t.nodes@;
    assert(nodes[j].parent matches Some(p) && (p as int) < j);
    assert forall|p: int, k1: int, k2: int|
        0 <= p < nodes.len() && 0 <= k1 < nodes[p].children@.len() && 0 <= k2
            < nodes[p].children@.len() && #[trigger] nodes[p].children@[k1].0 == j
            && #[trigger] nodes[p].children@[k2].0 == j implies k1 == k2 by {
        if k1 < k2 {
            assert(nodes[p].children@[k1].0 < nodes[p].children@[k2].0);
        } else if k2 < k1 {
            assert(nodes[p].children@[k2].0 < nodes[p].children@[k1].0);
        }
    }
}

/// Every entry of `leaves_upto(nodes, m)` is below `m`.
proof fn lemma_leaves_in_range<N, L, D>(nodes: Seq<Node<N, L, D>>, m: int)
    requires
        0 <= m <= nodes.len(),
        m <= usize::MAX,
    ensures
        forall|j: int| 0 <= j < leaves_upto(nodes, m).len() ==> (#[trigger] leaves_upto(nodes, m)[j] as int) < m,
    decreases m,
{
    if m > 0 {
        lemma_leaves_in_range(nodes, m - 1);
        let prev = leaves_upto(nodes, m - 1);
        if nodes[m - 1].children@.len() == 0 {
            assert forall|j: int| 0 <= j < prev.len() + 1 implies (#[trigger] prev.push((m - 1) as usize)[j] as int) < m by {
                if j < prev.len() {
                    assert(prev.push((m - 1) as usize)[j] == prev[j]);
                }
            }
        }
    }
}

} // verus!
