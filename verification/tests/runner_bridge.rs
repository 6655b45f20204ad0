use std::borrow::Cow;

use db_reconcile::manifest::Migration;
use db_reconcile::reconcile::RunnerReport;
use db_reconcile::runner::{manifest_of, report_for, report_of};
use sqlx::migrate::{MigrateError, MigrationType, Migrator};

fn shipped(version: i64, sql: &'static str) -> sqlx::migrate::Migration {
    sqlx::migrate::Migration::new(
        version,
        Cow::Borrowed("step"),
        MigrationType::Simple,
        Cow::Borrowed(sql),
        false,
    )
}

fn migrator_of(migrations: Vec<sqlx::migrate::Migration>) -> Migrator {
    Migrator { migrations: Cow::Owned(migrations), ..Migrator::DEFAULT }
}

#[test]
fn manifest_holds_what_the_migrator_holds() {
    let first = shipped(1, "CREATE TABLE a (id INTEGER)");
    let second = shipped(2, "CREATE TABLE b (id INTEGER)");
    let migrator = migrator_of(vec![first.clone(), second.clone()]);
    let manifest = manifest_of(&migrator).expect("ascending versions");
    assert_eq!(manifest.len(), 2);
    assert_eq!(
        manifest.get(0),
        Some(&Migration { version: 1, checksum: first.checksum.to_vec() })
    );
    assert_eq!(
        manifest.get(1),
        Some(&Migration { version: 2, checksum: second.checksum.to_vec() })
    );
    assert_eq!(first.checksum.len(), 48);
    assert_ne!(first.checksum, second.checksum);
}

#[test]
fn migrator_without_migrations_gives_an_empty_manifest() {
    let manifest = manifest_of(&migrator_of(Vec::new())).expect("no entries");
    assert_eq!(manifest.len(), 0);
}

#[test]
fn migrator_with_a_repeated_version_gives_no_manifest() {
    let migrator = migrator_of(vec![shipped(1, "SELECT 1"), shipped(1, "SELECT 2")]);
    assert!(manifest_of(&migrator).is_none());
}

#[test]
fn run_without_error_is_reported_as_applied() {
    assert_eq!(report_of(&Ok(())), RunnerReport::Applied);
}

#[test]
fn version_mismatch_is_reported_with_its_version() {
    assert_eq!(
        report_of(&Err(MigrateError::VersionMismatch(3))),
        RunnerReport::ChecksumMismatch(3)
    );
}

#[test]
fn other_runner_errors_are_not_mismatches() {
    assert_eq!(report_of(&Err(MigrateError::VersionMissing(3))), RunnerReport::OtherError);
    assert_eq!(report_of(&Err(MigrateError::Dirty(3))), RunnerReport::OtherError);
    assert_eq!(
        report_of(&Err(MigrateError::Execute(sqlx::Error::PoolClosed))),
        RunnerReport::OtherError
    );
}

#[test]
fn report_for_follows_the_mismatch() {
    assert_eq!(report_for(Some(-2)), RunnerReport::ChecksumMismatch(-2));
    assert_eq!(report_for(None), RunnerReport::OtherError);
}
