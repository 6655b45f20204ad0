//! The two places where the reconciliation meets the migration runner of
//! `sqlx`: the migrations that a migrator holds, and what its errors mean.

use crate::manifest::{entries_of, strictly_increasing, Entry, Manifest, Migration};
use crate::reconcile::RunnerReport;
use vstd::prelude::*;

verus! {

/// `sqlx::migrate::Migrator`, the set of migrations that the runner works
/// from. Nothing inside it is visible here.
#[verifier::external_type_specification]
#[verifier::external_body]
pub struct ExMigrator(sqlx::migrate::Migrator);

/// `sqlx::migrate::MigrateError`, the error of the runner. Nothing inside it
/// is visible here.
#[verifier::external_type_specification]
#[verifier::external_body]
pub struct ExMigrateError(sqlx::migrate::MigrateError);

/// The migrations that a migrator holds, in its order, each as its version
/// and its checksum.
pub uninterp spec fn listed(migrator: sqlx::migrate::Migrator) -> Seq<(i64, Seq<u8>)>;

/// The migrations that a migrator holds, as entries.
pub open spec fn shipped(migrator: sqlx::migrate::Migrator) -> Seq<Entry> {
    Seq::new(
        listed(migrator).len(),
        |i: int| Entry { version: listed(migrator)[i].0, checksum: listed(migrator)[i].1 },
    )
}

/// Walks `Migrator::iter` and copies, of each migration in turn, the version
/// and the checksum. Trusted: that the result holds what the migrator holds,
/// in the same order, which is all that `listed` names.
#[verifier::external_body]
fn migrations_of(migrator: &sqlx::migrate::Migrator) -> (items: Vec<Migration>)
    ensures
        items@.len() == listed(*migrator).len(),
        forall|i: int|
            0 <= i < items@.len() ==> (#[trigger] items@[i].version, items@[i].checksum@) == listed(
                *migrator,
            )[i],
{
    migrator.iter().map(|m| Migration { version: m.version, checksum: m.checksum.to_vec() }).collect()
}

/// The version of which a runner's error reports a checksum mismatch, if it
/// is the variant `MigrateError::VersionMismatch`; `None` of every other
/// error.
pub uninterp spec fn mismatch_in(error: sqlx::migrate::MigrateError) -> Option<i64>;

/// Tells the variant `MigrateError::VersionMismatch` from the others and
/// hands out its version. Trusted: that the result depends on the error
/// alone, which is all that `mismatch_in` names.
#[verifier::external_body]
fn mismatched_version(error: &sqlx::migrate::MigrateError) -> (version: Option<i64>)
    ensures
        version == mismatch_in(*error),
{
    match error {
        sqlx::migrate::MigrateError::VersionMismatch(version) => Some(*version),
        _ => None,
    }
}

/// The manifest of the migrations that `migrator` holds, if their versions
/// grow strictly.
pub fn manifest_of(migrator: &sqlx::migrate::Migrator) -> (made: Option<Manifest>)
    ensures
        made is Some <==> strictly_increasing(shipped(*migrator)),
        made matches Some(manifest) ==> manifest.wf() && manifest@ == shipped(*migrator),
{
    let items = migrations_of(migrator);
    assert(entries_of(items@) =~= shipped(*migrator));
    Manifest::new(items)
}

/// What an error of the runner means to the reconciliation, given the
/// version of its checksum mismatch if it is one.
pub fn report_for(mismatch: Option<i64>) -> (report: RunnerReport)
    ensures
        report == (match mismatch {
            Some(version) => RunnerReport::ChecksumMismatch(version),
            None => RunnerReport::OtherError,
        }),
{
    match mismatch {
        Some(version) => RunnerReport::ChecksumMismatch(version),
        None => RunnerReport::OtherError,
    }
}

/// What one run of the runner came back with. A run without an error has
/// applied what was pending. An error that is a checksum mismatch is
/// reported as the mismatch of its version, and every other error as
/// `OtherError`.
pub fn report_of(result: &Result<(), sqlx::migrate::MigrateError>) -> (report: RunnerReport)
    ensures
        result is Ok <==> report == RunnerReport::Applied,
        result matches Err(error) ==> report == (match mismatch_in(*error) {
            Some(version) => RunnerReport::ChecksumMismatch(version),
            None => RunnerReport::OtherError,
        }),
{
    match result {
        Ok(_) => RunnerReport::Applied,
        Err(error) => report_for(mismatched_version(error)),
    }
}

} // verus!
