//! What is done with the outcomes of one query.

pub mod aggregator;
pub mod laws;
