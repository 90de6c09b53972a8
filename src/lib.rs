//! A small catalog held as a heterogeneous graph of products, users and
//! search terms, with keyword search and neighbour-based recommendation.
pub mod graph_builder;
pub mod graph_store;
pub mod models;
pub mod recommender;
pub mod search;
pub mod text;

pub use graph_builder::{build_system, build_system_from_data, BuildError};
pub use graph_store::{MegaStoreGraph, SearchSystem};
pub use models::{EdgeType, GraphNode, NodeType, Product, ProductView, Term, User};
pub use recommender::recommend_for_user;
pub use search::search_by_term;
