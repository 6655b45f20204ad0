//! What a connection pool is opened with, for each of the two backends.

use vstd::prelude::*;
use vstd::string::*;

verus! {

/// How SQLite keeps its rollback journal.
#[derive(Debug, Clone, Copy, PartialEq, Eq, Structural)]
pub enum JournalMode {
    /// The journal file is deleted at the end of each transaction.
    Delete,
    /// Write-ahead logging, with its shared-memory file.
    Wal,
}

/// The most connections that a pool of the server backend holds at a time.
pub const POSTGRES_MAX_CONNECTIONS: u32 = 10;

/// Where the embedded database lives, and how it is opened.
#[derive(Debug, Clone, PartialEq, Eq)]
pub struct SqliteTarget {
    pub url: String,
    pub create_if_missing: bool,
    pub journal_mode: JournalMode,
}

/// Where the server database lives, and how large its pool may grow.
#[derive(Debug, Clone, PartialEq, Eq)]
pub struct PostgresTarget {
    pub url: String,
    pub max_connections: u32,
}

/// The name of the database file under the asset directory.
pub fn database_file_name() -> (name: &'static str)
    ensures
        name@ == "db.sqlite"@,
{
    "db.sqlite"
}

/// The connection string of the database file at `path`.
pub open spec fn sqlite_url(path: Seq<char>) -> Seq<char> {
    "sqlite://"@ + path
}

/// The embedded database at `path`: the file is created where it is
/// missing, and the journal is kept in delete mode.
pub fn sqlite_target(path: &str) -> (target: SqliteTarget)
    ensures
        target.url@ == sqlite_url(path@),
        target.create_if_missing,
        target.journal_mode == JournalMode::Delete,
{
    let mut url = String::from_str("sqlite://");
    url.append(path);
    SqliteTarget { url, create_if_missing: true, journal_mode: JournalMode::Delete }
}

/// The server database at `url`, which is taken as it is, with a pool of at
/// most [`POSTGRES_MAX_CONNECTIONS`] connections.
pub fn postgres_target(url: &str) -> (target: PostgresTarget)
    ensures
        target.url@ == url@,
        target.max_connections == POSTGRES_MAX_CONNECTIONS,
{
    PostgresTarget { url: String::from_str(url), max_connections: POSTGRES_MAX_CONNECTIONS }
}

} // verus!
