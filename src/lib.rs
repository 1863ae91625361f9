//! Bounded-depth subgraph extraction and per-address feature rollups over a
//! transaction graph whose vertices are addresses and whose edges are
//! transactions labelled by their hash.

pub mod identity;
mod labels;
pub mod traversal;
pub mod features;
pub mod output;
pub mod edgelist;
pub mod ingest;
