use cancer_migration_sims::simulations::YuleMigrations;
use cancer_migration_sims::tally::MigrationTally;
use cancer_migration_sims::visualizations::graph_from_edge_matrix;
use rand::rngs::StdRng;
use rand::{Rng, SeedableRng};
use rand_distr::{Distribution, Exp};

/// Runs `g` generations over `n` sites, each child moving to a uniformly drawn
/// site with probability `m` and staying otherwise.
fn run(seed: u64, lambda: f64, g: usize, n: usize, m: f64) -> YuleMigrations<f64> {
    let exp = Exp::new(lambda).unwrap();
    let mut rng = StdRng::seed_from_u64(seed);
    let mut sim = YuleMigrations::start(n, exp.sample(&mut rng));
    for _ in 0..g {
        assert!(sim.can_grow());
        let mut draws = Vec::new();
        for site in sim.leaf_sites() {
            for _ in 0..2 {
                let next = if rng.gen_bool(m) { rng.gen_range(0..n) } else { site };
                draws.push((next, exp.sample(&mut rng)));
            }
        }
        sim.grow(&draws);
    }
    sim
}

fn tally_rows(t: &MigrationTally) -> Vec<Vec<i32>> {
    let n = t.nrows();
    (0..n).map(|i| (0..n).map(|j| t.get(i, j)).collect()).collect()
}

fn total(t: &MigrationTally) -> i64 {
    tally_rows(t).iter().flatten().map(|&c| c as i64).sum()
}

#[test]
fn test_yule_migrations() {
    let sites = 6;
    let sim = run(42, 0.2, 10, sites, 0.015);
    for (i, row) in tally_rows(&sim.tally).iter().enumerate() {
        for (j, c) in row.iter().enumerate() {
            println!("{i} -> {j}: {c}");
        }
    }
    let g = graph_from_edge_matrix(&sim.tally);
    assert_eq!(g.node_count(), sites);
    assert_eq!(sim.generation, 10);
}

#[test]
fn start_is_root_alone() {
    let sim = YuleMigrations::start(3, 0.5);
    assert_eq!(sim.tree.nodes.len(), 1);
    assert_eq!(sim.tree.nodes[0].label, 0);
    assert_eq!(sim.tree.root_length, 0.5);
    assert_eq!(sim.leaf_sites(), vec![0]);
    assert_eq!(sim.site_counts(), vec![1, 0, 0]);
    assert_eq!(tally_rows(&sim.tally), vec![vec![0; 3]; 3]);
}

#[test]
fn grow_follows_the_draws() {
    let mut sim = YuleMigrations::start(3, 0.0);
    sim.grow(&vec![(1, 0.5), (0, 0.25)]);
    assert_eq!(sim.tree.nodes.len(), 3);
    assert_eq!(sim.tree.nodes[0].children, vec![(1, 0.5), (2, 0.25)]);
    assert_eq!(sim.leaf_sites(), vec![1, 0]);
    assert_eq!(sim.site_counts(), vec![1, 1, 0]);
    sim.grow(&vec![(2, 1.0), (1, 2.0), (0, 3.0), (0, 4.0)]);
    assert_eq!(sim.tree.nodes[1].children, vec![(3, 1.0), (4, 2.0)]);
    assert_eq!(sim.tree.nodes[2].children, vec![(5, 3.0), (6, 4.0)]);
    assert_eq!(sim.tree.nodes[5].parent, Some(2));
    assert_eq!(sim.tree.nodes[6].data, 6);
    assert_eq!(sim.leaf_sites(), vec![2, 1, 0, 0]);
    assert_eq!(sim.site_counts(), vec![2, 1, 1]);
    assert_eq!(sim.first_leaf, 3);
    // 0->1, 0->0, then from site 1: 1->2, 1->1, then from site 0: 0->0, 0->0
    assert_eq!(
        tally_rows(&sim.tally),
        vec![vec![3, 1, 0], vec![0, 1, 1], vec![0, 0, 0]]
    );
}

#[test]
fn counts_after_generations() {
    for g in 0..8 {
        let sim = run(7, 1.0, g, 4, 0.3);
        let nodes = sim.tree.nodes.len();
        assert_eq!(sim.tree.leaves().len(), 1 << g);
        assert_eq!(nodes, (1 << (g + 1)) - 1);
        let edges = sim.tree.edges();
        assert_eq!(edges.len(), nodes - 1);
        for c in 1..nodes {
            assert_eq!(edges.iter().filter(|e| e.1 == c).count(), 1);
        }
        assert_eq!(total(&sim.tally), edges.len() as i64);
        assert_eq!(total(&sim.tally), (1 << (g + 1)) - 2);
    }
}

#[test]
fn same_seed_same_run() {
    let a = run(42, 0.2, 9, 5, 0.1);
    let b = run(42, 0.2, 9, 5, 0.1);
    assert_eq!(a.tree.edges(), b.tree.edges());
    assert_eq!(a.tree.vertex_labels(), b.tree.vertex_labels());
    assert_eq!(tally_rows(&a.tally), tally_rows(&b.tally));
    let c = run(43, 0.2, 9, 5, 0.1);
    assert_ne!(a.tree.edges(), c.tree.edges());
}

#[test]
fn no_migration_stays_at_site_zero() {
    let sim = run(1, 0.5, 5, 3, 0.0);
    assert!(sim.tree.vertex_labels().iter().all(|&(_, l)| l == 0));
    assert_eq!(tally_rows(&sim.tally)[0][0], 62);
    assert_eq!(sim.site_counts(), vec![32, 0, 0]);
}

#[test]
fn tally_increment_and_zeros() {
    let mut t = MigrationTally::zeros(2);
    assert_eq!(t.nrows(), 2);
    t.increment(1, 0);
    t.increment(1, 0);
    t.increment(0, 0);
    assert_eq!(tally_rows(&t), vec![vec![1, 0], vec![2, 0]]);
}

#[test]
fn graph_skips_diagonal_and_zero_counts() {
    let mut t = MigrationTally::zeros(3);
    t.increment(0, 0);
    t.increment(0, 2);
    t.increment(0, 2);
    t.increment(2, 1);
    let g = graph_from_edge_matrix(&t);
    assert_eq!(g.node_count(), 3);
    let w: Vec<usize> = g.node_indices().map(|i| g[i]).collect();
    assert_eq!(w, vec![0, 1, 2]);
    let e: Vec<(usize, usize, i32)> = g
        .raw_edges()
        .iter()
        .map(|e| (e.source().index(), e.target().index(), e.weight))
        .collect();
    assert_eq!(e, vec![(0, 2, 2), (2, 1, 1)]);
}

#[test]
fn graph_of_empty_tally() {
    let t = MigrationTally::zeros(0);
    let g = graph_from_edge_matrix(&t);
    assert_eq!(g.node_count(), 0);
    assert_eq!(g.edge_count(), 0);
}
