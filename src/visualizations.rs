//! The migration graph: one node per site and one weighted edge per pair of
//! distinct sites between which at least one split moved.
use vstd::prelude::*;
use crate::tally::{MigrationTally, tally_entries};

verus! {

#[verifier::external_type_specification]
#[verifier::external_body]
#[verifier::reject_recursive_types(N)]
#[verifier::reject_recursive_types(E)]
#[verifier::reject_recursive_types(Ty)]
#[verifier::reject_recursive_types(Ix)]
pub struct ExGraph<N, E, Ty, Ix>(petgraph::Graph<N, E, Ty, Ix>);

#[verifier::external_type_specification]
#[verifier::external_body]
pub struct ExDirected(petgraph::Directed);

/// The node weights of a graph, in index order.
pub uninterp spec fn graph_nodes(g: petgraph::Graph<usize, i32>) -> Seq<usize>;

/// The edges of a graph as (source index, target index, weight), in index order.
pub uninterp spec fn graph_edges(g: petgraph::Graph<usize, i32>) -> Seq<(int, int, int)>;

/// Relies on `petgraph::Graph::new`: a graph without nodes or edges.
#[verifier::external_body]
fn new_graph() -> (g: petgraph::Graph<usize, i32>)
    ensures
        graph_nodes(g).len() == 0,
        graph_edges(g).len() == 0,
{
    petgraph::Graph::<usize, i32>::new()
}

/// Relies on `petgraph::Graph::add_node`: appends a node with the given
/// weight and returns its index, the former node count; it panics when the
/// count reaches the index type's maximum.
#[verifier::external_body]
fn add_node(g: &mut petgraph::Graph<usize, i32>, w: usize) -> (r: usize)
    requires
        graph_nodes(*old(g)).len() < u32::MAX,
    ensures
        r == graph_nodes(*old(g)).len(),
        graph_nodes(*final(g)) == graph_nodes(*old(g)).push(w),
        graph_edges(*final(g)) == graph_edges(*old(g)),
{
    g.add_node(w).index()
}

/// Relies on `petgraph::Graph::add_edge`: appends an edge from node `a` to
/// node `b` with the given weight; it panics when a node does not exist or
/// when the edge count reaches the index type's maximum.
#[verifier::external_body]
fn add_edge(g: &mut petgraph::Graph<usize, i32>, a: usize, b: usize, w: i32)
    requires
        a < graph_nodes(*old(g)).len(),
        b < graph_nodes(*old(g)).len(),
        a < u32::MAX,
        b < u32::MAX,
        graph_edges(*old(g)).len() < u32::MAX,
    ensures
        graph_nodes(*final(g)) == graph_nodes(*old(g)),
        graph_edges(*final(g)) == graph_edges(*old(g)).push((a as int, b as int, w as int)),
{
    g.add_edge(petgraph::graph::NodeIndex::new(a), petgraph::graph::NodeIndex::new(b), w);
}

/// The moves out of site `i` towards sites `0 .. m`: one (i, j, count) for
/// each other site `j` with a positive count, in site order.
pub open spec fn row_moves(t: Seq<Seq<int>>, i: int, m: int) -> Seq<(int, int, int)>
    decreases m,
{
    if m <= 0 {
        seq![]
    } else {
        let prev = row_moves(t, i, m - 1);
        if i != m - 1 && t[i][m - 1] > 0 {
            prev.push((i, m - 1, t[i][m - 1]))
        } else {
            prev
        }
    }
}

/// The moves out of sites `0 .. r`, site by site.
pub open spec fn moves_upto(t: Seq<Seq<int>>, r: int) -> Seq<(int, int, int)>
    decreases r,
{
    if r <= 0 {
        seq![]
    } else {
        moves_upto(t, r - 1) + row_moves(t, r - 1, t.len() as int)
    }
}

/// The migration graph of a square tally: node `i` has weight `i`, and there
/// is one edge `i -> j` weighted by the count for each pair of distinct sites
/// with a positive count, in row-major order. Self-transitions are left out.
pub fn graph_from_edge_matrix(m: &MigrationTally) -> (g: petgraph::Graph<usize, i32>)
    requires
        tally_entries(*m).len() * tally_entries(*m).len() < u32::MAX,
        forall|i: int|
            0 <= i < tally_entries(*m).len() ==> #[trigger] tally_entries(*m)[i].len() == tally_entries(*m).len(),
    ensures
        graph_nodes(g) == Seq::new(tally_entries(*m).len(), |i: int| i as usize),
        graph_edges(g) == moves_upto(tally_entries(*m), tally_entries(*m).len() as int),
{
    let ghost t = tally_entries(*m);
    let n = m.nrows();
    let mut g = new_graph();
    let mut i: usize = 0;
    while i < n
        invariant
            n == t.len(),
            n * n < u32::MAX,
            i <= n,
            graph_nodes(g) == Seq::new(i as nat, |k: int| k as usize),
            graph_edges(g).len() == 0,
        decreases n - i,
    {
        proof {
            assert(n <= n * n) by (nonlinear_arith)
                requires
                    i < n,
            ;
        }
        add_node(&mut g, i);
        i += 1;
        assert(graph_nodes(g) =~= Seq::new(i as nat, |k: int| k as usize));
    }
    let mut i: usize = 0;
    while i < n
        invariant
            t == tally_entries(*m),
            n == t.len(),
            n * n < u32::MAX,
            forall|r: int| 0 <= r < n ==> #[trigger] t[r].len() == n,
            i <= n,
            graph_nodes(g) == Seq::new(n as nat, |k: int| k as usize),
            graph_edges(g) == moves_upto(t, i as int),
            graph_edges(g).len() <= i * n,
        decreases n - i,
    {
        let mut j: usize = 0;
        while j < n
            invariant
                t == tally_entries(*m),
                n == t.len(),
                n * n < u32::MAX,
                forall|r: int| 0 <= r < n ==> #[trigger] t[r].len() == n,
                i < n,
                j <= n,
                graph_nodes(g) == Seq::new(n as nat, |k: int| k as usize),
                graph_edges(g) == moves_upto(t, i as int) + row_moves(t, i as int, j as int),
                graph_edges(g).len() <= i * n + j,
            decreases n - j,
        {
            proof {
                assert(i * n + j < n * n) by (nonlinear_arith)
                    requires
                        i < n,
                        j < n,
                ;
                assert(n <= n * n) by (nonlinear_arith)
                    requires
                        i < n,
                ;
            }
            if i != j {
                let c = m.get(i, j);
                if c > 0 {
                    add_edge(&mut g, i, j, c);
                }
            }
            j += 1;
            assert(graph_edges(g) =~= moves_upto(t, i as int) + row_moves(t, i as int, j as int));
        }
        i += 1;
        proof {
            assert(graph_edges(g) =~= moves_upto(t, i as int));
            assert((i - 1) * n + n == i * n) by (nonlinear_arith);
        }
    }
    g
}

} // verus!
