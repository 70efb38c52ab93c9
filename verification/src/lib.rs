//! A catalog of game mods gathered from a wiki: page parsing, catalog
//! merging, refresh coordination, freshness policy and queries.

pub mod catalog;
pub mod error;
pub mod freshness;
pub mod json;
pub mod listing;
pub mod orchestrator;
pub mod page;
pub mod query;
pub mod refresh;
pub mod text;
