//! Settings of the Postgres sink and their defaults.
use vstd::prelude::*;

verus! {

/// Where and how the Postgres sink writes.
pub struct PostgresConfig {
    pub host: String,
    pub port: u16,
    pub user: String,
    pub password: String,
    pub database: String,
    pub table: String,
    pub schema: String,
    pub max_batch_rows: usize,
    /// `append-only` or `upsert`.
    pub sink_type: String,
}

/// Rows buffered before a write, unless configured.
pub fn default_max_batch_rows() -> (r: usize)
    ensures
        r == 1024,
{
    1024
}

/// The schema written to, unless configured.
pub fn default_schema() -> (r: String)
    ensures
        r@ == "public"@,
{
    "public".to_string()
}

} // verus!
