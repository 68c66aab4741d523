//! Generation-synchronized growth of the lineage: a Yule process in which each
//! leaf splits in two and each child may move to another site.
//!
//! The random work (choosing each child's site from the migration matrix and
//! its branch length from an exponential law) is done by the caller, which
//! hands each generation's draws to [`YuleMigrations::grow`]. Everything that
//! follows from the draws, the arena and the tally of moves, is decided here.
use vstd::prelude::*;
use crate::tally::{
    MigrationTally, tally_entries, table_set, table_total, is_count_table, zero_table,
    lemma_table_total_bounds,
};
use crate::tree::{Node, Phylogeny, edges_upto, edges_of, leaves_upto, leaves_of};

verus! {

/// `2` to the power `g`.
pub open spec fn two_pow(g: nat) -> nat
    decreases g,
{
    if g == 0 {
        1
    } else {
        2 * two_pow((g - 1) as nat)
    }
}

/// A power of two exceeds its exponent.
proof fn lemma_two_pow_exceeds(g: nat)
    ensures
        two_pow(g) > g,
    decreases g,
{
    if g > 0 {
        lemma_two_pow_exceeds((g - 1) as nat);
    }
}

/// How many of the indices `2j + 1` and `2j + 2` lie below `len`.
pub open spec fn slots(len: int, j: int) -> int {
    if len - 2 * j - 1 >= 2 {
        2
    } else if len - 2 * j - 1 <= 0 {
        0
    } else {
        len - 2 * j - 1
    }
}

/// The arena is numbered as a binary heap: the children of node `j` are
/// `2j + 1` and `2j + 2`, as far as they exist, in that order.
pub open spec fn heap_shaped<D>(nodes: Seq<Node<usize, usize, D>>) -> bool {
    forall|j: int|
        #![trigger nodes[j].children]
        0 <= j < nodes.len() ==> {
            &&& nodes[j].children@.len() == slots(nodes.len() as int, j)
            &&& forall|m: int|
                #![trigger nodes[j].children@[m]]
                0 <= m < nodes[j].children@.len() ==> nodes[j].children@[m].0 == 2 * j + 1 + m
        }
}

/// The (origin site, destination site) of each split of one generation: draw
/// `k` gives the second or first child of leaf `first + k / 2`.
pub open spec fn split_pairs<D>(
    nodes: Seq<Node<usize, usize, D>>,
    first: int,
    draws: Seq<(usize, D)>,
) -> Seq<(usize, usize)> {
    Seq::new(draws.len(), |k: int| (nodes[first + k / 2].label, draws[k].0))
}

/// The table after one is added at each (origin, destination) of `pairs`, in turn.
pub open spec fn add_splits(t: Seq<Seq<int>>, pairs: Seq<(usize, usize)>) -> Seq<Seq<int>>
    decreases pairs.len(),
{
    if pairs.len() == 0 {
        t
    } else {
        let s = add_splits(t, pairs.drop_last());
        let a = pairs.last().0 as int;
        let b = pairs.last().1 as int;
        table_set(s, a, b, s[a][b] + 1)
    }
}

/// How many of the nodes `lo .. hi` have label `site`.
pub open spec fn site_count<D>(nodes: Seq<Node<usize, usize, D>>, lo: int, hi: int, site: usize) -> int
    decreases hi - lo,
{
    if hi <= lo {
        0
    } else if nodes[hi - 1].label == site {
        site_count(nodes, lo, hi - 1, site) + 1
    } else {
        site_count(nodes, lo, hi - 1, site)
    }
}

proof fn lemma_site_count_bound<D>(nodes: Seq<Node<usize, usize, D>>, lo: int, hi: int, site: usize)
    requires
        lo <= hi,
    ensures
        0 <= site_count(nodes, lo, hi, site) <= hi - lo,
    decreases hi - lo,
{
    if hi > lo {
        lemma_site_count_bound(nodes, lo, hi - 1, site);
    }
}

/// In a heap-shaped arena, the edges out of the first `m` nodes are those
/// into nodes `1, 2, ...` in turn, each from node `(child - 1) / 2`.
proof fn lemma_heap_edges<D>(nodes: Seq<Node<usize, usize, D>>, m: int)
    requires
        heap_shaped(nodes),
        nodes.len() >= 1,
        0 <= m <= nodes.len(),
    ensures
        edges_upto(nodes, m).len() == if 2 * m <= nodes.len() - 1 { 2 * m } else { nodes.len() - 1 },
        forall|e: int|
            #![trigger edges_upto(nodes, m)[e]]
            0 <= e < edges_upto(nodes, m).len() ==> edges_upto(nodes, m)[e].1 == e + 1
                && edges_upto(nodes, m)[e].0 == e / 2,
    decreases m,
{
    if m > 0 {
        lemma_heap_edges(nodes, m - 1);
        let prev = edges_upto(nodes, m - 1);
        let node = nodes[m - 1];
        assert(node.children@.len() == slots(nodes.len() as int, m - 1));
        let cur = edges_upto(nodes, m);
        assert(cur == prev + crate::tree::child_edges(m - 1, node));
        assert forall|e: int|
            #![trigger cur[e]]
            0 <= e < cur.len() implies cur[e].1 == e + 1 && cur[e].0 == e / 2 by {
            if e >= prev.len() {
                let q = e - prev.len();
                assert(node.children@[q].0 == 2 * (m - 1) + 1 + q);
            } else {
                assert(cur[e] == prev[e]);
            }
        }
    }
}

/// In a heap-shaped arena of `2f + 1` nodes, the childless nodes among the
/// first `m` are `f, f + 1, ..., m - 1`.
proof fn lemma_heap_leaves<D>(nodes: Seq<Node<usize, usize, D>>, f: int, m: int)
    requires
        heap_shaped(nodes),
        nodes.len() == 2 * f + 1,
        0 <= f,
        0 <= m <= nodes.len(),
    ensures
        leaves_upto(nodes, m) == Seq::new(
            if m > f { (m - f) as nat } else { 0 },
            |i: int| (f + i) as usize,
        ),
    decreases m,
{
    if m > 0 {
        lemma_heap_leaves(nodes, f, m - 1);
        assert(nodes[m - 1].children@.len() == slots(nodes.len() as int, m - 1));
        assert(leaves_upto(nodes, m) =~= Seq::new(
            if m > f { (m - f) as nat } else { 0 },
            |i: int| (f + i) as usize,
        ));
    }
}

/// The state of a run between generations: the arena grown so far, with node
/// `j` holding `j` as payload and its site as label, the tally of splits by
/// origin and destination site, and the index of the first current leaf.
pub struct YuleMigrations<D> {
    pub tree: Phylogeny<usize, usize, D>,
    pub tally: MigrationTally,
    pub sites: usize,
    pub generation: usize,
    pub first_leaf: usize,
}

impl<D> YuleMigrations<D> {
    pub open spec fn wf(&self) -> bool {
        let nodes = self.tree.nodes@;
        &&& self.tree.wf()
        &&& 2 <= self.sites
        &&& is_count_table(tally_entries(self.tally), self.sites as nat)
        &&& table_total(tally_entries(self.tally)) == nodes.len() - 1
        &&& nodes.len() == 2 * two_pow(self.generation as nat) - 1
        &&& self.first_leaf == two_pow(self.generation as nat) - 1
        &&& heap_shaped(nodes)
        &&& forall|j: int|
            #![trigger nodes[j]]
            0 <= j < nodes.len() ==> nodes[j].data == j && nodes[j].label < self.sites
    }

    /// The number of current leaves.
    pub open spec fn leaf_count(&self) -> int {
        self.tree.nodes@.len() - self.first_leaf
    }

    /// A run before its first generation: the root alone, at site `0`, with
    /// the given branch length, and a tally of zeros over `sites` sites.
    pub fn start(sites: usize, root_length: D) -> (r: Self)
        requires
            2 <= sites,
            sites * sites <= isize::MAX,
        ensures
            r.wf(),
            r.sites == sites,
            r.generation == 0,
            r.tree.nodes@.len() == 1,
            r.tree.nodes@[0].label == 0,
            r.tree.root_length == root_length,
            tally_entries(r.tally) == zero_table(sites as nat),
    {
        let root = Node::root(0usize, 0usize);
        let tree = Phylogeny::new(root, root_length);
        let tally = MigrationTally::zeros(sites);
        proof {
            assert(two_pow(0) == 1);
        }
        YuleMigrations { tree, tally, sites, generation: 0, first_leaf: 0 }
    }
    /// Whether one more generation fits: every index and count stays below
    /// `i32::MAX`.
    pub fn can_grow(&self) -> (r: bool)
        requires
            self.wf(),
        ensures
            r == (self.tree.nodes@.len() + 2 * self.leaf_count() <= i32::MAX),
    {
        let len = self.tree.nodes.len();
        let leaves = len - self.first_leaf;
        len <= i32::MAX as usize && leaves <= (i32::MAX as usize - len) / 2
    }

    /// Grows one generation. Each current leaf, in creation order, gets two
    /// children; draw `k` gives the site and branch length of the
    /// `k % 2`-th child of the `k / 2`-th leaf, and each child adds one to the
    /// tally at (its parent's site, its own site).
    pub fn grow(&mut self, draws: &Vec<(usize, D)>)
        where
            D: Copy,
        requires
            old(self).wf(),
            draws@.len() == 2 * old(self).leaf_count(),
            forall|k: int| 0 <= k < draws@.len() ==> #[trigger] draws@[k].0 < old(self).sites,
            old(self).tree.nodes@.len() + draws@.len() <= i32::MAX,
        ensures
            final(self).wf(),
            final(self).sites == old(self).sites,
            final(self).generation == old(self).generation + 1,
            final(self).first_leaf == old(self).tree.nodes@.len(),
            final(self).tree.root_length == old(self).tree.root_length,
            final(self).tree.nodes@.len() == old(self).tree.nodes@.len() + draws@.len(),
            forall|j: int|
                #![trigger final(self).tree.nodes@[j]]
                0 <= j < old(self).first_leaf ==> final(self).tree.nodes@[j] == old(self).tree.nodes@[j],
            forall|j: int|
                #![trigger final(self).tree.nodes@[j]]
                old(self).first_leaf <= j < old(self).tree.nodes@.len() ==> {
                    let n = final(self).tree.nodes@[j];
                    let k = 2 * (j - old(self).first_leaf);
                    &&& n.data == old(self).tree.nodes@[j].data
                    &&& n.label == old(self).tree.nodes@[j].label
                    &&& n.parent == old(self).tree.nodes@[j].parent
                    &&& n.children@ == seq![
                        ((2 * j + 1) as usize, draws@[k].1),
                        ((2 * j + 2) as usize, draws@[k + 1].1),
                    ]
                },
            forall|j: int|
                #![trigger final(self).tree.nodes@[j]]
                old(self).tree.nodes@.len() <= j < final(self).tree.nodes@.len() ==> {
                    let n = final(self).tree.nodes@[j];
                    let k = j - old(self).tree.nodes@.len();
                    &&& n.data == j
                    &&& n.label == draws@[k].0
                    &&& n.parent == Some((old(self).first_leaf + k / 2) as usize)
                    &&& n.children@.len() == 0
                },
            tally_entries(final(self).tally) == add_splits(
                tally_entries(old(self).tally),
                split_pairs(old(self).tree.nodes@, old(self).first_leaf as int, draws@),
            ),
    {
        let ghost old_nodes = self.tree.nodes@;
        let ghost old_tally = tally_entries(self.tally);
        let ghost pairs = split_pairs(old_nodes, self.first_leaf as int, draws@);
        let first = self.first_leaf;
        let count = self.tree.nodes.len();
        proof {
            lemma_two_pow_exceeds(self.generation as nat);
        }
        let mut k: usize = 0;
        while k < draws.len()
            invariant
                self.tree.wf(),
                self.sites == old(self).sites,
                self.generation == old(self).generation,
                self.first_leaf == first,
                self.tree.root_length == old(self).tree.root_length,
                first == old(self).first_leaf,
                count == old_nodes.len(),
                old_nodes == old(self).tree.nodes@,
                old_tally == tally_entries(old(self).tally),
                pairs == split_pairs(old_nodes, first as int, draws@),
                count == 2 * first + 1,
                draws@.len() == 2 * (count - first),
                count + draws@.len() <= i32::MAX,
                forall|q: int| 0 <= q < draws@.len() ==> #[trigger] draws@[q].0 < self.sites,
                forall|j: int|
                    #![trigger old_nodes[j]]
                    0 <= j < old_nodes.len() ==> old_nodes[j].data == j && old_nodes[j].label < self.sites,
                heap_shaped(old_nodes),
                k <= draws@.len(),
                self.tree.nodes@.len() == count + k,
                heap_shaped(self.tree.nodes@),
                forall|j: int|
                    #![trigger self.tree.nodes@[j]]
                    0 <= j < first ==> self.tree.nodes@[j] == old_nodes[j],
                forall|j: int|
                    #![trigger self.tree.nodes@[j]]
                    first <= j < count ==> {
                        let n = self.tree.nodes@[j];
                        &&& n.data == old_nodes[j].data
                        &&& n.label == old_nodes[j].label
                        &&& n.parent == old_nodes[j].parent
                        &&& forall|m: int|
                            #![trigger n.children@[m]]
                            0 <= m < n.children@.len() ==> n.children@[m].1 == draws@[2 * (j - first) + m].1
                    },
                forall|j: int|
                    #![trigger self.tree.nodes@[j]]
                    count <= j < count + k ==> {
                        let n = self.tree.nodes@[j];
                        &&& n.data == j
                        &&& n.label == draws@[j - count].0
                        &&& n.parent == Some((first + (j - count) / 2) as usize)
                    },
                tally_entries(self.tally) == add_splits(old_tally, pairs.take(k as int)),
                is_count_table(tally_entries(self.tally), self.sites as nat),
                table_total(tally_entries(self.tally)) == count - 1 + k,
            decreases draws@.len() - k,
        {
            let ghost before = self.tree.nodes@;
            let leaf = first + k / 2;
            let from = self.tree.nodes[leaf].label;
            let (to, len) = draws[k];
            proof {
                assert(before[leaf as int].children@.len() == slots(before.len() as int, leaf as int));
            }
            let id = self.tree.add_child(leaf, count + k, to, len);
            let ghost now = self.tree.nodes@;
            proof {
                assert forall|j: int|
                    #![trigger now[j].children]
                    0 <= j < now.len() implies {
                        &&& now[j].children@.len() == slots(now.len() as int, j)
                        &&& forall|m: int|
                            #![trigger now[j].children@[m]]
                            0 <= m < now[j].children@.len() ==> now[j].children@[m].0 == 2 * j + 1 + m
                    } by {
                    if j < before.len() && j != leaf {
                        assert(now[j] == before[j]);
                        assert(before[j].children@.len() == slots(before.len() as int, j));
                    } else if j == leaf {
                        assert(before[j].children@.len() == slots(before.len() as int, j));
                        assert forall|m: int|
                            #![trigger now[j].children@[m]]
                            0 <= m < now[j].children@.len() implies now[j].children@[m].0 == 2 * j + 1 + m by {
                            if m < before[j].children@.len() {
                                assert(now[j].children@[m] == before[j].children@[m]);
                            }
                        }
                    }
                }
                let t = tally_entries(self.tally);
                lemma_table_total_bounds(t);
                assert(t[from as int][to as int] <= table_total(t));
            }
            self.tally.increment(from, to);
            proof {
                assert(pairs.take(k + 1).drop_last() =~= pairs.take(k as int));
                assert(pairs[k as int] == (old_nodes[leaf as int].label, to));
            }
            k += 1;
        }
        self.first_leaf = count;
        self.generation = self.generation + 1;
        proof {
            assert(pairs.take(k as int) =~= pairs);
        }
    }
    /// The site of each current leaf, in creation order.
    pub fn leaf_sites(&self) -> (r: Vec<usize>)
        requires
            self.wf(),
        ensures
            r@ == Seq::new(self.leaf_count() as nat, |i: int| self.tree.nodes@[self.first_leaf + i].label),
    {
        let mut r: Vec<usize> = Vec::new();
        let mut j: usize = self.first_leaf;
        while j < self.tree.nodes.len()
            invariant
                self.wf(),
                self.first_leaf <= j <= self.tree.nodes@.len(),
                r@ == Seq::new((j - self.first_leaf) as nat, |i: int| self.tree.nodes@[self.first_leaf + i].label),
            decreases self.tree.nodes@.len() - j,
        {
            r.push(self.tree.nodes[j].label);
            j += 1;
            assert(r@ =~= Seq::new((j - self.first_leaf) as nat, |i: int| self.tree.nodes@[self.first_leaf + i].label));
        }
        r
    }

    /// How many current leaves stand at each site.
    pub fn site_counts(&self) -> (r: Vec<usize>)
        requires
            self.wf(),
        ensures
            r@.len() == self.sites,
            forall|s: int|
                0 <= s < self.sites ==> #[trigger] r@[s] == site_count(
                    self.tree.nodes@,
                    self.first_leaf as int,
                    self.tree.nodes@.len() as int,
                    s as usize,
                ),
    {
        let mut r: Vec<usize> = Vec::new();
        let mut s: usize = 0;
        while s < self.sites
            invariant
                s <= self.sites,
                r@.len() == s,
                forall|q: int| 0 <= q < s ==> #[trigger] r@[q] == 0,
            decreases self.sites - s,
        {
            r.push(0);
            s += 1;
        }
        let ghost nodes = self.tree.nodes@;
        let ghost lo = self.first_leaf as int;
        let mut j: usize = self.first_leaf;
        while j < self.tree.nodes.len()
            invariant
                self.wf(),
                nodes == self.tree.nodes@,
                lo == self.first_leaf,
                self.first_leaf <= j <= nodes.len(),
                r@.len() == self.sites,
                forall|q: int| 0 <= q < self.sites ==> #[trigger] r@[q] == site_count(nodes, lo, j as int, q as usize),
            decreases nodes.len() - j,
        {
            let site = self.tree.nodes[j].label;
            proof {
                lemma_site_count_bound(nodes, lo, j as int, site);
            }
            let c = r[site];
            r.set(site, c + 1);
            j += 1;
            assert forall|q: int| 0 <= q < self.sites implies #[trigger] r@[q] == site_count(nodes, lo, j as int, q as usize) by {
                assert(q as usize as int == q);
            }
        }
        r
    }
}

/// After `g` generations the arena holds `2^(g+1) - 1` nodes of which `2^g`
/// are leaves, namely the newest ones; it has one edge per non-root node, the
/// edge into node `c` being the `c`-th, so each child appears in exactly one
/// edge; and the tally counts every edge once.
pub proof fn lemma_generation_counts<D>(s: YuleMigrations<D>)
    requires
        s.wf(),
    ensures
        s.tree.nodes@.len() == 2 * two_pow(s.generation as nat) - 1,
        leaves_of(s.tree.nodes@).len() == two_pow(s.generation as nat),
        leaves_of(s.tree.nodes@) == Seq::new(
            two_pow(s.generation as nat),
            |i: int| (s.first_leaf + i) as usize,
        ),
        edges_of(s.tree.nodes@).len() == s.tree.nodes@.len() - 1,
        forall|c: int|
            1 <= c < s.tree.nodes@.len() ==> #[trigger] edges_of(s.tree.nodes@)[c - 1].1 == c,
        forall|e1: int, e2: int|
            0 <= e1 < edges_of(s.tree.nodes@).len() && 0 <= e2 < edges_of(s.tree.nodes@).len()
                && #[trigger] edges_of(s.tree.nodes@)[e1].1 == #[trigger] edges_of(s.tree.nodes@)[e2].1
                ==> e1 == e2,
        table_total(tally_entries(s.tally)) == edges_of(s.tree.nodes@).len(),
        table_total(tally_entries(s.tally)) == 2 * two_pow(s.generation as nat) - 2,
{
    let nodes = s.tree.nodes@;
    lemma_heap_edges(nodes, nodes.len() as int);
    lemma_heap_leaves(nodes, s.first_leaf as int, nodes.len() as int);
}

} // verus!
