//! The history of applied migrations, held in memory, with the runner's
//! contract and a whole reconciliation on it.
//!
//! A record holds a version and the checksum that was stored when the
//! migration was applied. When it was applied is the database's business and
//! has no part in any decision.

use crate::manifest::{
    checksum_of, distinct_versions, entries_of, has_version, index_of, lemma_index_of_unique,
    position, Entry, Manifest, Migration,
};
use crate::reconcile::{
    after_repair, after_report, begun, lemma_repairs_bounded, lemma_steps_keep_within,
    repairs_within, Action, Machine, Outcome, Phase, Reconciler, RunnerReport,
};
use vstd::prelude::*;

verus! {

/// The version of the first record, from position `from` on, for which the
/// manifest has no entry.
pub open spec fn first_unknown(manifest: Seq<Entry>, records: Seq<Entry>, from: int) -> Option<i64>
    decreases records.len() - from,
{
    if from < 0 || from >= records.len() {
        None
    } else if !has_version(manifest, records[from].version) {
        Some(records[from].version)
    } else {
        first_unknown(manifest, records, from + 1)
    }
}

/// The runner's walk over the manifest from position `from` on, in ascending
/// order: a migration without a record is applied and recorded, one whose
/// record holds its checksum is passed over, and the first whose record
/// holds another checksum ends the walk.
pub open spec fn apply_from(manifest: Seq<Entry>, records: Seq<Entry>, from: int) -> (
    Seq<Entry>,
    RunnerReport,
)
    decreases manifest.len() - from,
{
    if from < 0 || from >= manifest.len() {
        (records, RunnerReport::Applied)
    } else if !has_version(records, manifest[from].version) {
        apply_from(manifest, records.push(manifest[from]), from + 1)
    } else if checksum_of(records, manifest[from].version) == manifest[from].checksum {
        apply_from(manifest, records, from + 1)
    } else {
        (records, RunnerReport::ChecksumMismatch(manifest[from].version))
    }
}

/// One run of the runner: the history after it, and its report. A record
/// whose version the manifest lacks is reported as a mismatch of that
/// version, before anything is applied. (The runner of `sqlx` has an error
/// of its own for such a record, which reaches the reconciliation as
/// `OtherError`: it fails there too, and writes nothing. It also passes over
/// down-migrations, of which a manifest has none, and first refuses a
/// history that holds a migration left half applied, which this history
/// cannot record.)
pub open spec fn runner(manifest: Seq<Entry>, records: Seq<Entry>) -> (Seq<Entry>, RunnerReport) {
    match first_unknown(manifest, records, 0) {
        Some(version) => (records, RunnerReport::ChecksumMismatch(version)),
        None => apply_from(manifest, records, 0),
    }
}

/// The history after a direct write of `checksum` into the record of
/// `version`. Without such a record nothing changes.
pub open spec fn overwritten(records: Seq<Entry>, version: i64, checksum: Seq<u8>) -> Seq<Entry> {
    if has_version(records, version) {
        records.update(index_of(records, version), Entry { version, checksum })
    } else {
        records
    }
}

/// A history together with the state of the reconciliation that works on it.
pub struct Run {
    pub records: Seq<Entry>,
    pub machine: Machine,
}

/// The reconciliation loop on a history, for at most `rounds` runs of the
/// runner: run it, and after a repair run it again from the top.
pub open spec fn rounds_from(manifest: Seq<Entry>, records: Seq<Entry>, m: Machine, rounds: nat) -> Run
    decreases rounds,
{
    if rounds == 0 || m.phase != Phase::Applying {
        Run { records, machine: m }
    } else {
        let (after, report) = runner(manifest, records);
        let reported = after_report(manifest, m, report);
        match reported.phase {
            Phase::Repairing(version) => rounds_from(
                manifest,
                overwritten(after, version, checksum_of(manifest, version)),
                after_repair(reported, has_version(after, version)),
                (rounds - 1) as nat,
            ),
            _ => Run { records: after, machine: reported },
        }
    }
}

/// A whole reconciliation of a history with a manifest. Since a version is
/// repaired once at most, one run of the runner more than the manifest has
/// entries is all it can take.
pub open spec fn reconciled(manifest: Seq<Entry>, records: Seq<Entry>, skip: bool) -> Run {
    rounds_from(manifest, records, begun(skip), manifest.len() + 1)
}

/// What a reconciliation came to: its outcome, and how many stored checksums
/// it set out to repair.
#[derive(Debug, Clone, Copy, PartialEq, Eq, Structural)]
pub struct Summary {
    pub outcome: Outcome,
    pub repairs: usize,
}

/// Whether two byte strings are equal.
fn same_bytes(a: &Vec<u8>, b: &Vec<u8>) -> (same: bool)
    ensures
        same == (a@ == b@),
{
    if a.len() != b.len() {
        return false;
    }
    let mut i: usize = 0;
    while i < a.len()
        invariant
            i <= a.len(),
            a.len() == b.len(),
            forall|k: int| 0 <= k < i ==> a@[k] == b@[k],
        decreases a.len() - i,
    {
        if a[i] != b[i] {
            return false;
        }
        i += 1;
    }
    assert(a@ =~= b@);
    true
}

/// The records of applied migrations, one for each version.
pub struct HistoryStore {
    records: Vec<Migration>,
}

impl View for HistoryStore {
    type V = Seq<Entry>;

    closed spec fn view(&self) -> Seq<Entry> {
        entries_of(self.records@)
    }
}

impl HistoryStore {
    /// The version is the key of a record: none occurs twice.
    pub open spec fn wf(&self) -> bool {
        distinct_versions(self@)
    }

    /// The history of a fresh database: no record.
    pub fn new() -> (store: HistoryStore)
        ensures
            store@ == Seq::<Entry>::empty(),
            store.wf(),
    {
        let store = HistoryStore { records: Vec::new() };
        assert(store@ =~= Seq::<Entry>::empty());
        store
    }

    /// The number of records.
    pub fn len(&self) -> (n: usize)
        ensures
            n == self@.len(),
    {
        self.records.len()
    }

    /// The record at position `i`, in the order in which they were written.
    pub fn get(&self, i: usize) -> (record: Option<&Migration>)
        ensures
            record is Some <==> i < self@.len(),
            record matches Some(r) ==> r@ == self@[i as int],
    {
        if i < self.records.len() {
            Some(&self.records[i])
        } else {
            None
        }
    }

    /// The checksum stored for `version`, if there is a record of it.
    pub fn checksum(&self, version: i64) -> (found: Option<&Vec<u8>>)
        requires
            self.wf(),
        ensures
            found is Some <==> has_version(self@, version),
            found matches Some(stored) ==> stored@ == checksum_of(self@, version),
    {
        match position(&self.records, version) {
            Some(i) => {
                proof {
                    lemma_index_of_unique(self@, i as int);
                }
                Some(&self.records[i].checksum)
            },
            None => None,
        }
    }

    /// Writes a record, as applying a migration does. A version that has a
    /// record already is refused, and nothing changes.
    pub fn record(&mut self, migration: Migration) -> (added: bool)
        requires
            old(self).wf(),
        ensures
            final(self).wf(),
            added == !has_version(old(self)@, migration.version),
            final(self)@ == (if added {
                old(self)@.push(migration@)
            } else {
                old(self)@
            }),
    {
        if position(&self.records, migration.version).is_some() {
            return false;
        }
        let ghost before = self@;
        let ghost entry = migration@;
        self.records.push(migration);
        proof {
            assert(self@ =~= before.push(entry));
            lemma_push_distinct(before, entry);
        }
        true
    }

    /// Writes `checksum` into the record of `version`, directly. Returns
    /// whether there was such a record; without one nothing changes.
    pub fn overwrite_checksum(&mut self, version: i64, checksum: Vec<u8>) -> (written: bool)
        requires
            old(self).wf(),
        ensures
            final(self).wf(),
            written == has_version(old(self)@, version),
            final(self)@ == overwritten(old(self)@, version, checksum@),
    {
        match position(&self.records, version) {
            Some(i) => {
                let ghost before = self@;
                let ghost entry = Entry { version, checksum: checksum@ };
                proof {
                    lemma_index_of_unique(before, i as int);
                }
                self.records.set(i, Migration { version, checksum });
                proof {
                    assert(self@ =~= before.update(i as int, entry));
                    lemma_update_distinct(before, i as int, entry);
                }
                true
            },
            None => false,
        }
    }

    /// Runs the runner on this history: see [`runner`].
    pub fn run_pending(&mut self, manifest: &Manifest) -> (report: RunnerReport)
        requires
            old(self).wf(),
            manifest.wf(),
        ensures
            final(self).wf(),
            (final(self)@, report) == runner(manifest@, old(self)@),
    {
        let mut j: usize = 0;
        while j < self.records.len()
            invariant
                j <= self.records.len(),
                manifest.wf(),
                self.wf(),
                self@ == old(self)@,
                self@.len() == self.records@.len(),
                first_unknown(manifest@, self@, j as int) == first_unknown(manifest@, self@, 0),
            decreases self.records.len() - j,
        {
            let version = self.records[j].version;
            assert(self@[j as int].version == version);
            if manifest.find(version).is_none() {
                return RunnerReport::ChecksumMismatch(version);
            }
            j += 1;
        }
        let mut k: usize = 0;
        while k < manifest.len()
            invariant
                k <= manifest@.len(),
                manifest.wf(),
                self.wf(),
                first_unknown(manifest@, old(self)@, 0) is None,
                apply_from(manifest@, self@, k as int) == apply_from(manifest@, old(self)@, 0),
            decreases manifest@.len() - k,
        {
            let entry = manifest.at(k);
            let matches: Option<bool> = match self.checksum(entry.version) {
                Some(stored) => Some(same_bytes(stored, &entry.checksum)),
                None => None,
            };
            match matches {
                Some(true) => {},
                Some(false) => {
                    return RunnerReport::ChecksumMismatch(entry.version);
                },
                None => {
                    let checksum = entry.checksum.clone();
                    assert(checksum@ =~= entry.checksum@);
                    let added = self.record(Migration { version: entry.version, checksum });
                    assert(added);
                },
            }
            k += 1;
        }
        RunnerReport::Applied
    }

    /// Reconciles this history with `manifest`: see [`reconciled`]. With
    /// `skip` set nothing is read or written.
    pub fn reconcile(&mut self, manifest: &Manifest, skip: bool) -> (summary: Summary)
        requires
            old(self).wf(),
            manifest.wf(),
        ensures
            final(self).wf(),
            final(self)@ == reconciled(manifest@, old(self)@, skip).records,
            reconciled(manifest@, old(self)@, skip).machine.phase == Phase::Finished(summary.outcome),
            summary.repairs == reconciled(manifest@, old(self)@, skip).machine.repaired.len(),
    {
        let (mut reconciler, first) = Reconciler::begin(skip);
        if let Action::Finish(outcome) = first {
            return Summary { outcome, repairs: 0 };
        }
        let ghost mut rounds: nat = manifest@.len() + 1;
        loop
            invariant
                manifest.wf(),
                self.wf(),
                reconciler@.phase == Phase::Applying,
                repairs_within(manifest@, reconciler@),
                rounds + reconciler@.repaired.len() == manifest@.len() + 1,
                rounds_from(manifest@, self@, reconciler@, rounds) == reconciled(
                    manifest@,
                    old(self)@,
                    skip,
                ),
            decreases rounds,
        {
            proof {
                lemma_repairs_bounded(manifest@, reconciler@);
            }
            let ghost before = reconciler@;
            let report = self.run_pending(manifest);
            let action = reconciler.on_report(manifest, report);
            proof {
                lemma_steps_keep_within(manifest@, before, report, true);
            }
            match action {
                Action::OverwriteChecksum { version, checksum } => {
                    let written = self.overwrite_checksum(version, checksum);
                    proof {
                        rounds = (rounds - 1) as nat;
                    }
                    let next = reconciler.on_repair(written);
                    assert(rounds_from(manifest@, self@, reconciler@, rounds) == reconciled(
                        manifest@,
                        old(self)@,
                        skip,
                    ));
                    match next {
                        Action::Finish(outcome) => {
                            return Summary { outcome, repairs: reconciler.repairs() };
                        },
                        _ => {},
                    }
                },
                Action::Finish(outcome) => {
                    return Summary { outcome, repairs: reconciler.repairs() };
                },
                Action::RunMigrations => {},
            }
        }
    }
}

/// A record added under a new version keeps the versions distinct.
pub proof fn lemma_push_distinct(records: Seq<Entry>, entry: Entry)
    requires
        distinct_versions(records),
        !has_version(records, entry.version),
    ensures
        distinct_versions(records.push(entry)),
{
    let grown = records.push(entry);
    assert forall|i: int, j: int| 0 <= i < j < grown.len() implies (#[trigger] grown[i]).version != (
    #[trigger] grown[j]).version by {
        if j == records.len() {
            assert(records[i].version != entry.version);
        } else {
            assert(records[i].version != records[j].version);
        }
    }
}

/// A record rewritten under its own version keeps the versions distinct.
pub proof fn lemma_update_distinct(records: Seq<Entry>, i: int, entry: Entry)
    requires
        distinct_versions(records),
        0 <= i < records.len(),
        records[i].version == entry.version,
    ensures
        distinct_versions(records.update(i, entry)),
{
    let changed = records.update(i, entry);
    assert forall|a: int, b: int| 0 <= a < b < changed.len() implies (#[trigger] changed[a]).version != (
    #[trigger] changed[b]).version by {
        assert(records[a].version != records[b].version);
    }
}

} // verus!
