//! Snowflake entry types that mirror the platform's own object kinds.

use vstd::prelude::*;

verus! {

/// A Snowflake view entry.
#[derive(Clone, Debug)]
pub struct View {
    /// The view name in Snowflake.
    pub name: String,
    /// The schema the view lives in.
    pub schema_name: String,
    /// The database the view lives in.
    pub database_name: String,
}

} // verus!
