//! The decisions of the reconciliation loop.
//!
//! Running the migrations and writing to the history table are the caller's
//! work. After each of them the caller reports what happened, and the
//! [`Reconciler`] answers with what to do next.

use crate::manifest::{checksum_of, has_version, index_of, Entry, Manifest};
use vstd::prelude::*;

verus! {

/// Why a reconciliation ended without success.
#[derive(Debug, Clone, Copy, PartialEq, Eq, Structural)]
pub enum Failure {
    /// The runner failed for a reason other than a checksum mismatch.
    Runner,
    /// The version mismatched again after its stored checksum was repaired.
    MismatchPersists(i64),
    /// The mismatched version has no entry in the manifest.
    NotInManifest(i64),
    /// The write that repairs the stored checksum of the version failed.
    RepairWrite(i64),
}

/// How a reconciliation ended.
#[derive(Debug, Clone, Copy, PartialEq, Eq, Structural)]
pub enum Outcome {
    /// Migrations were switched off: the database was not touched.
    Skipped,
    /// The runner applied what was pending and found no mismatch.
    Reconciled,
    Failed(Failure),
}

/// Where a reconciliation stands.
#[derive(Debug, Clone, Copy, PartialEq, Eq, Structural)]
pub enum Phase {
    /// The runner is to be run, and its report is awaited.
    Applying,
    /// The stored checksum of the version is to be overwritten.
    Repairing(i64),
    Finished(Outcome),
}

/// What one run of the migration runner came back with.
#[derive(Debug, Clone, Copy, PartialEq, Eq, Structural)]
pub enum RunnerReport {
    /// Every pending migration was applied and no checksum differed.
    Applied,
    /// The stored checksum of the version differs from the manifest's.
    ChecksumMismatch(i64),
    /// Any other error.
    OtherError,
}

/// What the caller is to do next.
#[derive(Debug, Clone, PartialEq, Eq)]
pub enum Action {
    /// Run the migration runner and report with [`Reconciler::on_report`].
    RunMigrations,
    /// Write `checksum` into the history record of `version`, directly and not
    /// through the runner, and report with [`Reconciler::on_repair`].
    OverwriteChecksum { version: i64, checksum: Vec<u8> },
    /// Stop: the reconciliation has ended.
    Finish(Outcome),
}

/// An [`Action`] with its checksum as a sequence of bytes.
pub enum ActionView {
    RunMigrations,
    OverwriteChecksum { version: i64, checksum: Seq<u8> },
    Finish(Outcome),
}

impl View for Action {
    type V = ActionView;

    open spec fn view(&self) -> ActionView {
        match *self {
            Action::RunMigrations => ActionView::RunMigrations,
            Action::OverwriteChecksum { version, checksum } => ActionView::OverwriteChecksum {
                version,
                checksum: checksum@,
            },
            Action::Finish(outcome) => ActionView::Finish(outcome),
        }
    }
}

/// The severity at which a step of the reconciliation is logged.
#[derive(Debug, Clone, Copy, PartialEq, Eq, Structural)]
pub enum Level {
    Info,
    Warn,
    Error,
}

/// The state of one reconciliation: its phase, and the versions whose stored
/// checksum it has set out to repair, in the order in which they came.
pub struct Machine {
    pub phase: Phase,
    pub repaired: Seq<i64>,
}

/// The state in which a reconciliation starts.
pub open spec fn begun(skip: bool) -> Machine {
    Machine {
        phase: if skip {
            Phase::Finished(Outcome::Skipped)
        } else {
            Phase::Applying
        },
        repaired: Seq::empty(),
    }
}

/// The state after the runner's report. Outside the phase `Applying` a report
/// changes nothing.
pub open spec fn after_report(manifest: Seq<Entry>, m: Machine, report: RunnerReport) -> Machine {
    if m.phase != Phase::Applying {
        m
    } else {
        match report {
            RunnerReport::Applied => Machine { phase: Phase::Finished(Outcome::Reconciled), ..m },
            RunnerReport::OtherError => Machine {
                phase: Phase::Finished(Outcome::Failed(Failure::Runner)),
                ..m
            },
            RunnerReport::ChecksumMismatch(version) => if m.repaired.contains(version) {
                Machine {
                    phase: Phase::Finished(Outcome::Failed(Failure::MismatchPersists(version))),
                    ..m
                }
            } else if !has_version(manifest, version) {
                Machine {
                    phase: Phase::Finished(Outcome::Failed(Failure::NotInManifest(version))),
                    ..m
                }
            } else {
                Machine { phase: Phase::Repairing(version), repaired: m.repaired.push(version) }
            },
        }
    }
}

/// The state after the write of a repair. Outside the phase `Repairing` it
/// changes nothing.
pub open spec fn after_repair(m: Machine, written: bool) -> Machine {
    match m.phase {
        Phase::Repairing(version) => Machine {
            phase: if written {
                Phase::Applying
            } else {
                Phase::Finished(Outcome::Failed(Failure::RepairWrite(version)))
            },
            ..m
        },
        _ => m,
    }
}

/// What a state asks of the caller.
pub open spec fn pending(manifest: Seq<Entry>, m: Machine) -> ActionView {
    match m.phase {
        Phase::Applying => ActionView::RunMigrations,
        Phase::Repairing(version) => ActionView::OverwriteChecksum {
            version,
            checksum: checksum_of(manifest, version),
        },
        Phase::Finished(outcome) => ActionView::Finish(outcome),
    }
}

/// Every repaired version is one of the manifest's, and none was repaired
/// twice.
pub open spec fn repairs_within(manifest: Seq<Entry>, m: Machine) -> bool {
    &&& m.repaired.no_duplicates()
    &&& forall|i: int| 0 <= i < m.repaired.len() ==> has_version(manifest, #[trigger] m.repaired[i])
}

/// Whatever the runner reports and however the writes end, the repaired
/// versions stay distinct versions of the manifest.
pub proof fn lemma_steps_keep_within(
    manifest: Seq<Entry>,
    m: Machine,
    report: RunnerReport,
    written: bool,
)
    requires
        repairs_within(manifest, m),
    ensures
        repairs_within(manifest, begun(false)),
        repairs_within(manifest, after_report(manifest, m, report)),
        repairs_within(manifest, after_repair(m, written)),
{
}

/// A reconciliation sets out on no more repairs than the manifest has
/// entries. Since the runner is run once at the start and once after each
/// repair, it is run at most once more than that, whatever it answers.
pub proof fn lemma_repairs_bounded(manifest: Seq<Entry>, m: Machine)
    requires
        repairs_within(manifest, m),
    ensures
        m.repaired.len() <= manifest.len(),
{
    let versions = manifest.map_values(|e: Entry| e.version);
    assert forall|v: i64| m.repaired.to_set().contains(v) implies versions.to_set().contains(v) by {
        let i = choose|i: int| 0 <= i < m.repaired.len() && m.repaired[i] == v;
        assert(has_version(manifest, m.repaired[i]));
        let k = index_of(manifest, v);
        assert(versions[k] == v);
    }
    m.repaired.unique_seq_to_set();
    versions.lemma_cardinality_of_set();
    vstd::set_lib::lemma_len_subset(m.repaired.to_set(), versions.to_set());
}

/// The severity at which an action is logged, if it is logged at all: a skip
/// at info, a repair at warn, a failure at error.
pub open spec fn level_of(action: ActionView) -> Option<Level> {
    match action {
        ActionView::RunMigrations => None,
        ActionView::OverwriteChecksum { .. } => Some(Level::Warn),
        ActionView::Finish(Outcome::Skipped) => Some(Level::Info),
        ActionView::Finish(Outcome::Reconciled) => None,
        ActionView::Finish(Outcome::Failed(_)) => Some(Level::Error),
    }
}

/// The severity at which `action` is logged, if it is logged at all.
pub fn log_level(action: &Action) -> (level: Option<Level>)
    ensures
        level == level_of(action@),
{
    match action {
        Action::RunMigrations => None,
        Action::OverwriteChecksum { .. } => Some(Level::Warn),
        Action::Finish(Outcome::Skipped) => Some(Level::Info),
        Action::Finish(Outcome::Reconciled) => None,
        Action::Finish(Outcome::Failed(_)) => Some(Level::Error),
    }
}

/// Whether `version` occurs in `versions`.
fn holds(versions: &Vec<i64>, version: i64) -> (found: bool)
    ensures
        found == versions@.contains(version),
{
    let mut i: usize = 0;
    while i < versions.len()
        invariant
            i <= versions.len(),
            forall|k: int| 0 <= k < i ==> versions@[k] != version,
        decreases versions.len() - i,
    {
        if versions[i] == version {
            return true;
        }
        i += 1;
    }
    false
}

/// One reconciliation, from its start to its outcome. It lives for one call
/// and is never stored.
pub struct Reconciler {
    phase: Phase,
    repaired: Vec<i64>,
}

impl View for Reconciler {
    type V = Machine;

    closed spec fn view(&self) -> Machine {
        Machine { phase: self.phase, repaired: self.repaired@ }
    }
}

impl Reconciler {
    /// Starts a reconciliation. With `skip` set it has ended at once, and the
    /// database is not to be touched; otherwise the runner is to be run.
    pub fn begin(skip: bool) -> (started: (Reconciler, Action))
        ensures
            started.0@ == begun(skip),
            started.1@ == (if skip {
                ActionView::Finish(Outcome::Skipped)
            } else {
                ActionView::RunMigrations
            }),
    {
        if skip {
            (
                Reconciler { phase: Phase::Finished(Outcome::Skipped), repaired: Vec::new() },
                Action::Finish(Outcome::Skipped),
            )
        } else {
            (Reconciler { phase: Phase::Applying, repaired: Vec::new() }, Action::RunMigrations)
        }
    }

    /// The phase in which the reconciliation stands.
    pub fn phase(&self) -> (phase: Phase)
        ensures
            phase == self@.phase,
    {
        self.phase
    }

    /// The number of versions whose repair was set out on.
    pub fn repairs(&self) -> (n: usize)
        ensures
            n == self@.repaired.len(),
    {
        self.repaired.len()
    }

    /// Takes the runner's report and decides what follows. A first mismatch
    /// of a version that the manifest has is repaired with the manifest's
    /// checksum. A second mismatch of one version, a version that the
    /// manifest lacks and any other error end the reconciliation.
    pub fn on_report(&mut self, manifest: &Manifest, report: RunnerReport) -> (action: Action)
        requires
            manifest.wf(),
            old(self)@.phase == Phase::Applying,
        ensures
            final(self)@ == after_report(manifest@, old(self)@, report),
            action@ == pending(manifest@, final(self)@),
    {
        match report {
            RunnerReport::Applied => {
                self.phase = Phase::Finished(Outcome::Reconciled);
                Action::Finish(Outcome::Reconciled)
            },
            RunnerReport::OtherError => {
                self.phase = Phase::Finished(Outcome::Failed(Failure::Runner));
                Action::Finish(Outcome::Failed(Failure::Runner))
            },
            RunnerReport::ChecksumMismatch(version) => {
                if holds(&self.repaired, version) {
                    let outcome = Outcome::Failed(Failure::MismatchPersists(version));
                    self.phase = Phase::Finished(outcome);
                    return Action::Finish(outcome);
                }
                match manifest.find(version) {
                    Some(entry) => {
                        let checksum = entry.checksum.clone();
                        assert(checksum@ =~= entry.checksum@);
                        self.repaired.push(version);
                        self.phase = Phase::Repairing(version);
                        Action::OverwriteChecksum { version, checksum }
                    },
                    None => {
                        let outcome = Outcome::Failed(Failure::NotInManifest(version));
                        self.phase = Phase::Finished(outcome);
                        Action::Finish(outcome)
                    },
                }
            },
        }
    }

    /// Takes the result of the write that repairs a checksum. After a write
    /// that succeeded the runner is run again from the top; one that failed
    /// ends the reconciliation. Where no write was asked for, nothing
    /// changes.
    pub fn on_repair(&mut self, written: bool) -> (action: Action)
        ensures
            final(self)@ == after_repair(old(self)@, written),
            action@ == (match final(self)@.phase {
                Phase::Finished(outcome) => ActionView::Finish(outcome),
                _ => ActionView::RunMigrations,
            }),
            !(final(self)@.phase is Repairing),
    {
        match self.phase {
            Phase::Repairing(version) => {
                if written {
                    self.phase = Phase::Applying;
                    Action::RunMigrations
                } else {
                    let outcome = Outcome::Failed(Failure::RepairWrite(version));
                    self.phase = Phase::Finished(outcome);
                    Action::Finish(outcome)
                }
            },
            Phase::Applying => Action::RunMigrations,
            Phase::Finished(outcome) => Action::Finish(outcome),
        }
    }
}

} // verus!
