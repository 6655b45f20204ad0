use db_reconcile::manifest::{Manifest, Migration};
use db_reconcile::reconcile::{
    log_level, Action, Failure, Level, Outcome, Phase, Reconciler, RunnerReport,
};
use db_reconcile::toggle::skip_requested;

fn manifest_of(entries: &[(i64, &[u8])]) -> Manifest {
    let list: Vec<Migration> = entries
        .iter()
        .map(|(version, checksum)| Migration { version: *version, checksum: checksum.to_vec() })
        .collect();
    Manifest::new(list).expect("ascending versions")
}

fn three() -> Manifest {
    manifest_of(&[(1, b"one"), (2, b"two"), (3, b"three")])
}

#[test]
fn skip_ends_at_once() {
    let (reconciler, action) = Reconciler::begin(true);
    assert_eq!(action, Action::Finish(Outcome::Skipped));
    assert_eq!(reconciler.phase(), Phase::Finished(Outcome::Skipped));
    assert_eq!(reconciler.repairs(), 0);
}

#[test]
fn without_skip_the_runner_is_run_first() {
    let (reconciler, action) = Reconciler::begin(false);
    assert_eq!(action, Action::RunMigrations);
    assert_eq!(reconciler.phase(), Phase::Applying);
}

#[test]
fn clean_report_ends_in_success_without_a_write() {
    let manifest = three();
    let (mut reconciler, _) = Reconciler::begin(false);
    let action = reconciler.on_report(&manifest, RunnerReport::Applied);
    assert_eq!(action, Action::Finish(Outcome::Reconciled));
    assert_eq!(reconciler.phase(), Phase::Finished(Outcome::Reconciled));
    assert_eq!(reconciler.repairs(), 0);
}

#[test]
fn other_error_is_surfaced_at_once() {
    let manifest = three();
    let (mut reconciler, _) = Reconciler::begin(false);
    let action = reconciler.on_report(&manifest, RunnerReport::OtherError);
    assert_eq!(action, Action::Finish(Outcome::Failed(Failure::Runner)));
    assert_eq!(reconciler.repairs(), 0);
}

#[test]
fn first_mismatch_asks_for_the_manifest_checksum() {
    let manifest = three();
    let (mut reconciler, _) = Reconciler::begin(false);
    let action = reconciler.on_report(&manifest, RunnerReport::ChecksumMismatch(2));
    assert_eq!(action, Action::OverwriteChecksum { version: 2, checksum: b"two".to_vec() });
    assert_eq!(reconciler.phase(), Phase::Repairing(2));
    assert_eq!(reconciler.repairs(), 1);
}

#[test]
fn repaired_mismatch_is_followed_by_a_retry_and_success() {
    let manifest = three();
    let (mut reconciler, _) = Reconciler::begin(false);
    reconciler.on_report(&manifest, RunnerReport::ChecksumMismatch(2));
    assert_eq!(reconciler.on_repair(true), Action::RunMigrations);
    assert_eq!(reconciler.phase(), Phase::Applying);
    let action = reconciler.on_report(&manifest, RunnerReport::Applied);
    assert_eq!(action, Action::Finish(Outcome::Reconciled));
    assert_eq!(reconciler.repairs(), 1);
}

#[test]
fn failed_repair_write_ends_in_failure() {
    let manifest = three();
    let (mut reconciler, _) = Reconciler::begin(false);
    reconciler.on_report(&manifest, RunnerReport::ChecksumMismatch(3));
    let action = reconciler.on_repair(false);
    assert_eq!(action, Action::Finish(Outcome::Failed(Failure::RepairWrite(3))));
    assert_eq!(reconciler.phase(), Phase::Finished(Outcome::Failed(Failure::RepairWrite(3))));
}

#[test]
fn mismatch_that_persists_fails_on_its_second_report() {
    let manifest = three();
    let (mut reconciler, mut action) = Reconciler::begin(false);
    let mut runs = 0;
    let mut writes = 0;
    let outcome = loop {
        assert!(runs + writes < 10, "the loop must end");
        match action {
            Action::RunMigrations => {
                runs += 1;
                action = reconciler.on_report(&manifest, RunnerReport::ChecksumMismatch(1));
            }
            Action::OverwriteChecksum { version, checksum } => {
                assert_eq!(version, 1);
                assert_eq!(checksum, b"one".to_vec());
                writes += 1;
                action = reconciler.on_repair(true);
            }
            Action::Finish(outcome) => break outcome,
        }
    };
    assert_eq!(outcome, Outcome::Failed(Failure::MismatchPersists(1)));
    assert_eq!(runs, 2);
    assert_eq!(writes, 1);
}

#[test]
fn each_version_is_repaired_once_and_the_loop_ends() {
    let manifest = three();
    let reports = [
        RunnerReport::ChecksumMismatch(1),
        RunnerReport::ChecksumMismatch(2),
        RunnerReport::ChecksumMismatch(3),
        RunnerReport::ChecksumMismatch(2),
    ];
    let (mut reconciler, mut action) = Reconciler::begin(false);
    let mut runs = 0;
    let outcome = loop {
        match action {
            Action::RunMigrations => {
                action = reconciler.on_report(&manifest, reports[runs]);
                runs += 1;
            }
            Action::OverwriteChecksum { .. } => action = reconciler.on_repair(true),
            Action::Finish(outcome) => break outcome,
        }
    };
    assert_eq!(outcome, Outcome::Failed(Failure::MismatchPersists(2)));
    assert_eq!(runs, 4);
    assert_eq!(reconciler.repairs(), 3);
}

#[test]
fn version_missing_from_the_manifest_fails_without_a_write() {
    let manifest = three();
    let (mut reconciler, _) = Reconciler::begin(false);
    let action = reconciler.on_report(&manifest, RunnerReport::ChecksumMismatch(9));
    assert_eq!(action, Action::Finish(Outcome::Failed(Failure::NotInManifest(9))));
    assert_eq!(reconciler.repairs(), 0);
}

#[test]
fn log_levels_follow_the_action() {
    assert_eq!(log_level(&Action::RunMigrations), None);
    assert_eq!(log_level(&Action::Finish(Outcome::Reconciled)), None);
    assert_eq!(log_level(&Action::Finish(Outcome::Skipped)), Some(Level::Info));
    assert_eq!(
        log_level(&Action::OverwriteChecksum { version: 1, checksum: vec![1] }),
        Some(Level::Warn)
    );
    assert_eq!(log_level(&Action::Finish(Outcome::Failed(Failure::Runner))), Some(Level::Error));
    assert_eq!(
        log_level(&Action::Finish(Outcome::Failed(Failure::MismatchPersists(4)))),
        Some(Level::Error)
    );
    assert_eq!(
        log_level(&Action::Finish(Outcome::Failed(Failure::NotInManifest(4)))),
        Some(Level::Error)
    );
    assert_eq!(
        log_level(&Action::Finish(Outcome::Failed(Failure::RepairWrite(4)))),
        Some(Level::Error)
    );
}

#[test]
fn truthy_toggle_ends_the_reconciliation_before_any_statement() {
    for value in ["1", "TRUE"] {
        let (_, action) = Reconciler::begin(skip_requested(Some(value)));
        assert_eq!(action, Action::Finish(Outcome::Skipped));
    }
}

#[test]
fn other_toggle_values_let_the_reconciliation_run() {
    for value in [Some("false"), Some("no"), None] {
        let (_, action) = Reconciler::begin(skip_requested(value));
        assert_eq!(action, Action::RunMigrations);
    }
}

#[test]
fn repair_result_that_was_not_asked_for_changes_nothing() {
    let manifest = three();
    let (mut reconciler, _) = Reconciler::begin(false);
    assert_eq!(reconciler.on_repair(false), Action::RunMigrations);
    assert_eq!(reconciler.phase(), Phase::Applying);
    reconciler.on_report(&manifest, RunnerReport::Applied);
    assert_eq!(reconciler.on_repair(true), Action::Finish(Outcome::Reconciled));
    assert_eq!(reconciler.phase(), Phase::Finished(Outcome::Reconciled));
}
