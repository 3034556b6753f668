//! Core library of an access-governance tool: it models the access graph that
//! unifies users, groups, assets, policies and tags observed across several
//! data platforms, computes effective permissions over it, diffs the observed
//! state against a desired configuration, and translates the resulting changes
//! back into per-connector form.

pub mod access_graph;
pub mod config;
pub mod connectors;
pub mod cual;
pub mod dbt;
pub mod diff;
pub mod errors;
pub mod jetty;
pub mod snowflake;
pub mod tableau;
pub mod translate;
pub mod util;

