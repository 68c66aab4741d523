//! Simulation of a population that spreads over a fixed set of sites while its
//! lineage grows by binary splits, one synchronized generation at a time.
//!
//! The lineage is kept in an append-only arena ([`tree::Phylogeny`]), the
//! generation-by-generation growth is the state machine of
//! [`simulations::YuleMigrations`], and the count of splits between each pair
//! of sites is a [`tally::MigrationTally`], from which
//! [`visualizations::graph_from_edge_matrix`] builds the migration graph.
pub mod simulations;
pub mod tally;
pub mod tree;
pub mod visualizations;
