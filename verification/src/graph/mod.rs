pub mod batch;
pub mod cache;
pub mod connection;
pub mod error;
pub mod graph;
pub mod id_map;
pub mod node;
pub mod node_id;
pub mod port;
