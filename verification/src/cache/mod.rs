//! The cache of ranked answers.

pub mod cacher;
pub mod flight;
