//! The statements that are sent outside the runner, word for word.

use vstd::prelude::*;

verus! {

/// The two backends, which differ in how a statement marks its parameters.
#[derive(Debug, Clone, Copy, PartialEq, Eq, Structural)]
pub enum Dialect {
    /// Parameters are written `?`.
    Sqlite,
    /// Parameters are written `$1`, `$2`.
    Postgres,
}

/// The statement that overwrites the stored checksum of one version. Its
/// first parameter is the checksum, its second the version.
pub open spec fn repair_text(dialect: Dialect) -> Seq<char> {
    match dialect {
        Dialect::Sqlite => "UPDATE _sqlx_migrations SET checksum = ? WHERE version = ?"@,
        Dialect::Postgres => "UPDATE _sqlx_migrations SET checksum = $1 WHERE version = $2"@,
    }
}

/// The statement that overwrites the stored checksum of one version, in the
/// dialect of the backend.
pub fn repair_statement(dialect: Dialect) -> (sql: &'static str)
    ensures
        sql@ == repair_text(dialect),
{
    match dialect {
        Dialect::Sqlite => "UPDATE _sqlx_migrations SET checksum = ? WHERE version = ?",
        Dialect::Postgres => "UPDATE _sqlx_migrations SET checksum = $1 WHERE version = $2",
    }
}

/// The query for the identifier of the current transaction, as a 64-bit
/// integer. It goes through text, since some servers cannot cast the wide
/// identifier to the integer directly.
pub fn txid_query() -> (sql: &'static str)
    ensures
        sql@ == "SELECT pg_current_xact_id()::text::bigint"@,
{
    "SELECT pg_current_xact_id()::text::bigint"
}

} // verus!
