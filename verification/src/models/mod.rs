//! The data that the handler, the aggregator and the cache exchange.

pub mod aggregation_models;
pub mod engine_models;
