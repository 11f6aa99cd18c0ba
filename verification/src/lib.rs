//! Aggregation core of the `anvesh` meta search engine: the closed registry of
//! upstream engines, the plan of which engines a query is sent to, the merge and
//! ranking of what they answer, and the cache of ranked answers.

pub mod models;
pub mod engine_handler;
pub mod results;
pub mod cache;
pub mod sequences;
