//! The options that `sqlx` opens a connection to the embedded database
//! with, made from its target.

use crate::pool::{JournalMode, SqliteTarget};
use std::str::FromStr;
use vstd::prelude::*;

verus! {

/// `sqlx::sqlite::SqliteConnectOptions`, what a connection to the embedded
/// database is opened with. Nothing inside it is visible here.
#[verifier::external_type_specification]
#[verifier::external_body]
pub struct ExSqliteConnectOptions(sqlx::sqlite::SqliteConnectOptions);

/// `sqlx::Error`. Nothing inside it is visible here.
#[verifier::external_type_specification]
#[verifier::external_body]
pub struct ExSqlxError(sqlx::Error);

/// Whether `SqliteConnectOptions::from_str` takes a connection string.
pub uninterp spec fn url_accepted(url: Seq<char>) -> bool;

/// Whether a connection opened with the options creates the database file
/// where it is missing: what `SqliteConnectOptions::create_if_missing` set.
pub uninterp spec fn creates_missing(options: sqlx::sqlite::SqliteConnectOptions) -> bool;

/// The journal mode that `SqliteConnectOptions::journal_mode` set on the
/// options, if it set one.
pub uninterp spec fn journal_set(options: sqlx::sqlite::SqliteConnectOptions) -> Option<
    JournalMode,
>;

/// Why a target could not be turned into options.
#[derive(Debug)]
pub enum TargetError {
    /// The connection string was refused, with the error that says why.
    Url(sqlx::Error),
}

/// Calls `SqliteConnectOptions::from_str`. Trusted: that whether it
/// succeeds depends on the connection string alone, which is all that
/// `url_accepted` names.
#[verifier::external_body]
fn parse_sqlite_url(url: &str) -> (parsed: Result<sqlx::sqlite::SqliteConnectOptions, sqlx::Error>)
    ensures
        parsed is Ok <==> url_accepted(url@),
{
    sqlx::sqlite::SqliteConnectOptions::from_str(url)
}

/// Calls `SqliteConnectOptions::create_if_missing`. Trusted: that it sets
/// whether a missing file is created, and leaves the journal mode as it was.
#[verifier::external_body]
fn with_create_if_missing(options: sqlx::sqlite::SqliteConnectOptions, create: bool) -> (made:
    sqlx::sqlite::SqliteConnectOptions)
    ensures
        creates_missing(made) == create,
        journal_set(made) == journal_set(options),
{
    options.create_if_missing(create)
}

/// Calls `SqliteConnectOptions::journal_mode`. Trusted: that it sets the
/// journal mode, and leaves as it was whether a missing file is created.
#[verifier::external_body]
fn with_journal_mode(options: sqlx::sqlite::SqliteConnectOptions, mode: JournalMode) -> (made:
    sqlx::sqlite::SqliteConnectOptions)
    ensures
        journal_set(made) == Some(mode),
        creates_missing(made) == creates_missing(options),
{
    options.journal_mode(
        match mode {
            JournalMode::Delete => sqlx::sqlite::SqliteJournalMode::Delete,
            JournalMode::Wal => sqlx::sqlite::SqliteJournalMode::Wal,
        },
    )
}

/// The options that open a connection to `target`, where its connection
/// string is accepted: they create a missing file, and keep the journal, as
/// the target says.
pub fn sqlite_connect_options(target: &SqliteTarget) -> (made: Result<
    sqlx::sqlite::SqliteConnectOptions,
    TargetError,
>)
    ensures
        made is Ok <==> url_accepted(target.url@),
        made matches Ok(options) ==> creates_missing(options) == target.create_if_missing
            && journal_set(options) == Some(target.journal_mode),
{
    match parse_sqlite_url(target.url.as_str()) {
        Ok(options) => Ok(
            with_journal_mode(
                with_create_if_missing(options, target.create_if_missing),
                target.journal_mode,
            ),
        ),
        Err(error) => Err(TargetError::Url(error)),
    }
}

} // verus!
