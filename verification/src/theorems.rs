//! What holds of a reconciliation, whatever the manifest.

use crate::history::{
    apply_from, first_unknown, lemma_push_distinct, lemma_update_distinct, overwritten,
    reconciled, rounds_from, runner, Run,
};
use crate::manifest::{
    checksum_of, distinct_versions, has_version, index_of, lemma_increasing_is_distinct,
    lemma_index_of_unique, strictly_increasing, Entry,
};
use crate::reconcile::{
    after_repair, after_report, begun, level_of, pending, repairs_within, ActionView, Failure,
    Level, Machine, Outcome, Phase, RunnerReport,
};
use vstd::prelude::*;

verus! {

/// The history holds a record of `entry` with the entry's checksum.
pub open spec fn covers(records: Seq<Entry>, entry: Entry) -> bool {
    has_version(records, entry.version) && checksum_of(records, entry.version) == entry.checksum
}

/// The history holds, for every entry of the manifest, a record with the
/// entry's checksum.
pub open spec fn agrees(manifest: Seq<Entry>, records: Seq<Entry>) -> bool {
    forall|i: int| 0 <= i < manifest.len() ==> covers(records, #[trigger] manifest[i])
}

/// A mismatch of a version that was repaired before ends the reconciliation
/// in failure: no version is repaired twice.
pub proof fn lemma_repeated_mismatch_fails(manifest: Seq<Entry>, m: Machine, version: i64)
    requires
        m.phase == Phase::Applying,
        m.repaired.contains(version),
    ensures
        after_report(manifest, m, RunnerReport::ChecksumMismatch(version)) == (Machine {
            phase: Phase::Finished(Outcome::Failed(Failure::MismatchPersists(version))),
            repaired: m.repaired,
        }),
{
}

/// Against a runner that reports the mismatch of one version again after its
/// repair, the reconciliation repairs once and then fails.
pub proof fn lemma_persistent_mismatch_fails(manifest: Seq<Entry>, version: i64)
    requires
        has_version(manifest, version),
    ensures
        ({
            let report = RunnerReport::ChecksumMismatch(version);
            let repairing = after_report(manifest, begun(false), report);
            let retried = after_repair(repairing, true);
            let ended = after_report(manifest, retried, report);
            &&& repairing.phase == Phase::Repairing(version)
            &&& retried.phase == Phase::Applying
            &&& ended.phase == Phase::Finished(Outcome::Failed(Failure::MismatchPersists(version)))
            &&& ended.repaired == seq![version]
        }),
{
    let report = RunnerReport::ChecksumMismatch(version);
    let repairing = after_report(manifest, begun(false), report);
    assert(!Seq::<i64>::empty().contains(version));
    assert(repairing.repaired =~= seq![version]);
    assert(repairing.repaired[0] == version);
    assert(repairing.repaired.contains(version));
}

/// A mismatch of a version that the manifest lacks ends the reconciliation
/// in failure, and no checksum is written for it.
pub proof fn lemma_unknown_version_fails(manifest: Seq<Entry>, m: Machine, version: i64)
    requires
        m.phase == Phase::Applying,
        repairs_within(manifest, m),
        !has_version(manifest, version),
    ensures
        ({
            let ended = after_report(manifest, m, RunnerReport::ChecksumMismatch(version));
            &&& ended.phase == Phase::Finished(Outcome::Failed(Failure::NotInManifest(version)))
            &&& ended.repaired == m.repaired
            &&& pending(manifest, ended) == ActionView::Finish(
                Outcome::Failed(Failure::NotInManifest(version)),
            )
        }),
{
    if m.repaired.contains(version) {
        let i = choose|i: int| 0 <= i < m.repaired.len() && m.repaired[i] == version;
        assert(has_version(manifest, m.repaired[i]));
    }
}

/// A first mismatch of a version that the manifest has asks for one write:
/// the manifest's checksum, into the record of that version.
pub proof fn lemma_first_mismatch_repairs(manifest: Seq<Entry>, m: Machine, version: i64)
    requires
        m.phase == Phase::Applying,
        !m.repaired.contains(version),
        has_version(manifest, version),
    ensures
        ({
            let repairing = after_report(manifest, m, RunnerReport::ChecksumMismatch(version));
            &&& repairing.phase == Phase::Repairing(version)
            &&& repairing.repaired == m.repaired.push(version)
            &&& pending(manifest, repairing) == (ActionView::OverwriteChecksum {
                version,
                checksum: checksum_of(manifest, version),
            })
        }),
{
}

/// No record of a history made of the manifest's own entries is unknown to
/// the manifest.
proof fn lemma_own_entries_known(manifest: Seq<Entry>, records: Seq<Entry>, from: int)
    requires
        0 <= from <= records.len() <= manifest.len(),
        forall|i: int| 0 <= i < records.len() ==> (#[trigger] records[i]).version == manifest[i].version,
    ensures
        first_unknown(manifest, records, from) is None,
    decreases records.len() - from,
{
    if from < records.len() {
        assert(manifest[from].version == records[from].version);
        lemma_own_entries_known(manifest, records, from + 1);
    }
}

/// From position `from` on, the runner's walk over a history that holds the
/// first `have` entries of the manifest ends with the whole manifest.
proof fn lemma_walk_completes(manifest: Seq<Entry>, have: int, from: int)
    requires
        strictly_increasing(manifest),
        0 <= from <= have <= manifest.len(),
        from < have || from == have,
    ensures
        apply_from(manifest, manifest.subrange(0, have), from) == (manifest, RunnerReport::Applied),
    decreases manifest.len() - from,
{
    let records = manifest.subrange(0, have);
    if from >= manifest.len() {
        assert(records =~= manifest);
    } else if from < have {
        lemma_increasing_is_distinct(manifest);
        assert(distinct_versions(records)) by {
            assert forall|i: int, j: int| 0 <= i < j < records.len() implies (#[trigger] records[i]).version
                != (#[trigger] records[j]).version by {
                assert(manifest[i].version != manifest[j].version);
            }
        }
        assert(records[from] == manifest[from]);
        lemma_index_of_unique(records, from);
        lemma_walk_completes(manifest, have, from + 1);
    } else {
        assert(!has_version(records, manifest[from].version)) by {
            if has_version(records, manifest[from].version) {
                let i = index_of(records, manifest[from].version);
                assert(records[i] == manifest[i]);
                assert(manifest[i].version < manifest[from].version);
            }
        }
        assert(records.push(manifest[from]) =~= manifest.subrange(0, have + 1));
        lemma_walk_completes(manifest, have + 1, from + 1);
    }
}

/// On a history that holds the first `have` entries of the manifest, the
/// runner applies the rest and writes nothing else.
pub proof fn lemma_runner_completes(manifest: Seq<Entry>, have: int)
    requires
        strictly_increasing(manifest),
        0 <= have <= manifest.len(),
    ensures
        runner(manifest, manifest.subrange(0, have)) == (manifest, RunnerReport::Applied),
{
    lemma_own_entries_known(manifest, manifest.subrange(0, have), 0);
    lemma_walk_completes(manifest, have, 0);
}

/// A history that holds the first `have` entries of the manifest reconciles
/// in one pass, to the whole manifest and without a repair.
pub proof fn lemma_pending_applied(manifest: Seq<Entry>, have: int)
    requires
        strictly_increasing(manifest),
        0 <= have <= manifest.len(),
    ensures
        reconciled(manifest, manifest.subrange(0, have), false) == (Run {
            records: manifest,
            machine: Machine {
                phase: Phase::Finished(Outcome::Reconciled),
                repaired: Seq::<i64>::empty(),
            },
        }),
{
    lemma_runner_completes(manifest, have);
}

/// The history of a fresh database reconciles in one pass to the manifest
/// itself, without a repair.
pub proof fn lemma_fresh_history_reconciles(manifest: Seq<Entry>)
    requires
        strictly_increasing(manifest),
    ensures
        reconciled(manifest, Seq::<Entry>::empty(), false) == (Run {
            records: manifest,
            machine: Machine {
                phase: Phase::Finished(Outcome::Reconciled),
                repaired: Seq::<i64>::empty(),
            },
        }),
{
    assert(manifest.subrange(0, 0) =~= Seq::<Entry>::empty());
    lemma_pending_applied(manifest, 0);
}

/// Reconciling twice in a row, from a fresh database on: both runs succeed,
/// and the second leaves the history as the first left it, with no repair.
pub proof fn lemma_second_run_changes_nothing(manifest: Seq<Entry>)
    requires
        strictly_increasing(manifest),
    ensures
        ({
            let first = reconciled(manifest, Seq::<Entry>::empty(), false);
            let second = reconciled(manifest, first.records, false);
            &&& first.machine.phase == Phase::Finished(Outcome::Reconciled)
            &&& second.machine.phase == Phase::Finished(Outcome::Reconciled)
            &&& second.records == first.records
            &&& second.machine.repaired.len() == 0
        }),
{
    lemma_fresh_history_reconciles(manifest);
    assert(manifest.subrange(0, manifest.len() as int) =~= manifest);
    lemma_pending_applied(manifest, manifest.len() as int);
}

/// With migrations switched off the history is left as it is.
pub proof fn lemma_skip_touches_nothing(manifest: Seq<Entry>, records: Seq<Entry>)
    ensures
        reconciled(manifest, records, true) == (Run { records, machine: begun(true) }),
        begun(true).phase == Phase::Finished(Outcome::Skipped),
{
}

/// The runner's walk over a history that holds the manifest's first entries,
/// one of them under another checksum, stops at that entry and writes
/// nothing.
proof fn lemma_walk_stops(manifest: Seq<Entry>, drifted: Seq<Entry>, at: int, from: int)
    requires
        distinct_versions(drifted),
        0 <= from <= at < drifted.len() <= manifest.len(),
        forall|i: int| 0 <= i < drifted.len() ==> (#[trigger] drifted[i]).version == manifest[i].version,
        forall|i: int| 0 <= i < at ==> (#[trigger] drifted[i]).checksum == manifest[i].checksum,
        drifted[at].checksum != manifest[at].checksum,
    ensures
        apply_from(manifest, drifted, from) == (
            drifted,
            RunnerReport::ChecksumMismatch(manifest[at].version),
        ),
    decreases at - from,
{
    assert(drifted[from].version == manifest[from].version);
    lemma_index_of_unique(drifted, from);
    if from < at {
        assert(drifted[from].checksum == manifest[from].checksum);
        lemma_walk_stops(manifest, drifted, at, from + 1);
    }
}

/// Where the stored checksum of one applied version has drifted from the
/// manifest's, the reconciliation succeeds: it restores that checksum with
/// one repair, and the history ends as the manifest.
pub proof fn lemma_single_drift_repaired(manifest: Seq<Entry>, have: int, at: int, stale: Seq<u8>)
    requires
        strictly_increasing(manifest),
        0 <= at < have <= manifest.len(),
        stale != manifest[at].checksum,
    ensures
        reconciled(
            manifest,
            manifest.subrange(0, have).update(
                at,
                Entry { version: manifest[at].version, checksum: stale },
            ),
            false,
        ) == (Run {
            records: manifest,
            machine: Machine {
                phase: Phase::Finished(Outcome::Reconciled),
                repaired: seq![manifest[at].version],
            },
        }),
{
    let version = manifest[at].version;
    let settled = manifest.subrange(0, have);
    let drifted = settled.update(at, Entry { version, checksum: stale });
    lemma_increasing_is_distinct(manifest);
    assert(distinct_versions(drifted)) by {
        assert forall|i: int, j: int| 0 <= i < j < drifted.len() implies (#[trigger] drifted[i]).version
            != (#[trigger] drifted[j]).version by {
            assert(manifest[i].version != manifest[j].version);
        }
    }
    lemma_own_entries_known(manifest, drifted, 0);
    lemma_walk_stops(manifest, drifted, at, 0);
    assert(runner(manifest, drifted) == (drifted, RunnerReport::ChecksumMismatch(version)));
    lemma_index_of_unique(manifest, at);
    lemma_index_of_unique(drifted, at);
    let start = begun(false);
    assert(!start.repaired.contains(version));
    let repairing = after_report(manifest, start, RunnerReport::ChecksumMismatch(version));
    assert(repairing.phase == Phase::Repairing(version));
    assert(repairing.repaired =~= seq![version]);
    let retried = after_repair(repairing, has_version(drifted, version));
    assert(retried == Machine { phase: Phase::Applying, repaired: seq![version] });
    let repaired = overwritten(drifted, version, checksum_of(manifest, version));
    assert(repaired =~= settled);
    lemma_runner_completes(manifest, have);
    let rest = manifest.len() as nat;
    assert(rounds_from(manifest, settled, retried, rest) == Run {
        records: manifest,
        machine: Machine { phase: Phase::Finished(Outcome::Reconciled), repaired: seq![version] },
    });
    assert(rounds_from(manifest, drifted, start, rest + 1) == rounds_from(
        manifest,
        repaired,
        retried,
        rest,
    ));
}

/// Where some record from `from` on is unknown to the manifest, the first
/// such record is found.
proof fn lemma_first_unknown_found(manifest: Seq<Entry>, records: Seq<Entry>, from: int, at: int)
    requires
        0 <= from <= at < records.len(),
        !has_version(manifest, records[at].version),
    ensures
        first_unknown(manifest, records, from) matches Some(version) && has_version(records, version)
            && !has_version(manifest, version),
    decreases at - from,
{
    if has_version(manifest, records[from].version) {
        lemma_first_unknown_found(manifest, records, from + 1, at);
    } else {
        assert(records[from].version == records[from].version);
    }
}

/// Where the history holds a record of a version that the manifest lacks,
/// the reconciliation fails for such a version, and the history is left as
/// it was: nothing is applied and no checksum is written.
pub proof fn lemma_unknown_record_fails(manifest: Seq<Entry>, records: Seq<Entry>, at: int)
    requires
        0 <= at < records.len(),
        !has_version(manifest, records[at].version),
    ensures
        ({
            let run = reconciled(manifest, records, false);
            &&& run.records == records
            &&& run.machine.repaired.len() == 0
            &&& run.machine.phase matches Phase::Finished(
                Outcome::Failed(Failure::NotInManifest(version)),
            ) && has_version(records, version) && !has_version(manifest, version)
        }),
{
    lemma_first_unknown_found(manifest, records, 0, at);
    let version = first_unknown(manifest, records, 0)->Some_0;
    assert(runner(manifest, records) == (records, RunnerReport::ChecksumMismatch(version)));
    assert(!begun(false).repaired.contains(version));
}

/// The runner's walk keeps the versions of the history distinct.
pub proof fn lemma_walk_keeps_distinct(manifest: Seq<Entry>, records: Seq<Entry>, from: int)
    requires
        distinct_versions(records),
    ensures
        distinct_versions(apply_from(manifest, records, from).0),
    decreases manifest.len() - from,
{
    if 0 <= from < manifest.len() {
        if !has_version(records, manifest[from].version) {
            lemma_push_distinct(records, manifest[from]);
            lemma_walk_keeps_distinct(manifest, records.push(manifest[from]), from + 1);
        } else if checksum_of(records, manifest[from].version) == manifest[from].checksum {
            lemma_walk_keeps_distinct(manifest, records, from + 1);
        }
    }
}

/// A record added under a new version leaves what the history covered
/// covered, and covers the entry it was made from.
proof fn lemma_push_covers(records: Seq<Entry>, added: Entry, entry: Entry)
    requires
        distinct_versions(records),
        !has_version(records, added.version),
        covers(records, entry) || entry == added,
    ensures
        covers(records.push(added), entry),
{
    let grown = records.push(added);
    lemma_push_distinct(records, added);
    if entry == added && !covers(records, entry) {
        assert(grown[records.len() as int] == added);
        lemma_index_of_unique(grown, records.len() as int);
    } else {
        let i = index_of(records, entry.version);
        assert(grown[i] == records[i]);
        lemma_index_of_unique(grown, i);
    }
}

/// A walk of the runner that ends without a mismatch leaves a history that
/// agrees with the manifest.
proof fn lemma_walk_covers(manifest: Seq<Entry>, records: Seq<Entry>, from: int)
    requires
        distinct_versions(records),
        0 <= from,
        forall|j: int| 0 <= j < from && j < manifest.len() ==> covers(records, #[trigger] manifest[j]),
        apply_from(manifest, records, from).1 == RunnerReport::Applied,
    ensures
        agrees(manifest, apply_from(manifest, records, from).0),
    decreases manifest.len() - from,
{
    if from < manifest.len() {
        let entry = manifest[from];
        if !has_version(records, entry.version) {
            let grown = records.push(entry);
            lemma_push_distinct(records, entry);
            assert forall|j: int| 0 <= j < from + 1 && j < manifest.len() implies covers(
                grown,
                #[trigger] manifest[j],
            ) by {
                lemma_push_covers(records, entry, manifest[j]);
            }
            lemma_walk_covers(manifest, grown, from + 1);
        } else if checksum_of(records, entry.version) == entry.checksum {
            lemma_walk_covers(manifest, records, from + 1);
        }
    }
}

/// A loop of runs that ends in success leaves a history that agrees with
/// the manifest.
proof fn lemma_rounds_agree(manifest: Seq<Entry>, records: Seq<Entry>, m: Machine, rounds: nat)
    requires
        distinct_versions(records),
        m.phase == Phase::Applying,
        rounds_from(manifest, records, m, rounds).machine.phase == Phase::Finished(
            Outcome::Reconciled,
        ),
    ensures
        agrees(manifest, rounds_from(manifest, records, m, rounds).records),
        distinct_versions(rounds_from(manifest, records, m, rounds).records),
    decreases rounds,
{
    if rounds > 0 {
        let (after, report) = runner(manifest, records);
        let reported = after_report(manifest, m, report);
        if first_unknown(manifest, records, 0) is None {
            lemma_walk_keeps_distinct(manifest, records, 0);
        }
        match reported.phase {
            Phase::Repairing(version) => {
                let written = has_version(after, version);
                let next = after_repair(reported, written);
                let repaired = overwritten(after, version, checksum_of(manifest, version));
                if written {
                    let i = index_of(after, version);
                    lemma_update_distinct(
                        after,
                        i,
                        Entry { version, checksum: checksum_of(manifest, version) },
                    );
                    lemma_rounds_agree(manifest, repaired, next, (rounds - 1) as nat);
                } else {
                    assert(rounds_from(manifest, repaired, next, (rounds - 1) as nat).machine == next);
                }
            },
            _ => {
                assert(report == RunnerReport::Applied);
                lemma_walk_covers(manifest, records, 0);
            },
        }
    }
}

/// After a reconciliation that succeeded, the history holds for every entry
/// of the manifest exactly one record, with the entry's checksum.
pub proof fn lemma_success_agrees(manifest: Seq<Entry>, records: Seq<Entry>)
    requires
        distinct_versions(records),
        reconciled(manifest, records, false).machine.phase == Phase::Finished(Outcome::Reconciled),
    ensures
        agrees(manifest, reconciled(manifest, records, false).records),
        distinct_versions(reconciled(manifest, records, false).records),
{
    lemma_rounds_agree(manifest, records, begun(false), manifest.len() + 1);
}

/// Every record of the history is of a version that the manifest has.
pub open spec fn all_known(manifest: Seq<Entry>, records: Seq<Entry>) -> bool {
    forall|i: int| 0 <= i < records.len() ==> has_version(manifest, (#[trigger] records[i]).version)
}

/// The record of every repaired version holds the manifest's checksum.
pub open spec fn repairs_hold(manifest: Seq<Entry>, records: Seq<Entry>, repaired: Seq<i64>) -> bool {
    forall|j: int|
        0 <= j < repaired.len() ==> has_version(records, #[trigger] repaired[j]) && checksum_of(
            records,
            repaired[j],
        ) == checksum_of(manifest, repaired[j])
}

/// A history without a record unknown to the manifest has no first such
/// record.
proof fn lemma_all_known_none(manifest: Seq<Entry>, records: Seq<Entry>, from: int)
    requires
        all_known(manifest, records),
        0 <= from,
    ensures
        first_unknown(manifest, records, from) is None,
    decreases records.len() - from,
{
    if from < records.len() {
        assert(has_version(manifest, records[from].version));
        lemma_all_known_none(manifest, records, from + 1);
    }
}

/// A record added under a new version leaves the records of the other
/// versions as they were.
proof fn lemma_push_keeps(records: Seq<Entry>, added: Entry, version: i64)
    requires
        distinct_versions(records),
        !has_version(records, added.version),
        has_version(records, version),
    ensures
        has_version(records.push(added), version),
        checksum_of(records.push(added), version) == checksum_of(records, version),
{
    let grown = records.push(added);
    lemma_push_distinct(records, added);
    let i = index_of(records, version);
    assert(grown[i] == records[i]);
    lemma_index_of_unique(grown, i);
}

/// A direct write into the record of one version sets its checksum and
/// leaves the records of the other versions as they were.
proof fn lemma_overwrite_keeps(records: Seq<Entry>, version: i64, checksum: Seq<u8>, other: i64)
    requires
        distinct_versions(records),
        has_version(records, version),
        has_version(records, other),
    ensures
        has_version(overwritten(records, version, checksum), other),
        checksum_of(overwritten(records, version, checksum), other) == (if other == version {
            checksum
        } else {
            checksum_of(records, other)
        }),
{
    let at = index_of(records, version);
    let changed = records.update(at, Entry { version, checksum });
    lemma_update_distinct(records, at, Entry { version, checksum });
    let i = index_of(records, other);
    assert(changed[i].version == other);
    lemma_index_of_unique(changed, i);
    lemma_index_of_unique(records, i);
    lemma_index_of_unique(records, at);
}

/// What one walk of the runner leaves behind: the records that were there
/// stay as they were, every record is still known to the manifest, and a
/// mismatch is reported only of a version whose record differs from the
/// manifest.
proof fn lemma_walk_facts(manifest: Seq<Entry>, records: Seq<Entry>, from: int)
    requires
        strictly_increasing(manifest),
        distinct_versions(records),
        all_known(manifest, records),
        0 <= from,
    ensures
        ({
            let (after, report) = apply_from(manifest, records, from);
            &&& distinct_versions(after)
            &&& all_known(manifest, after)
            &&& forall|v: i64| #[trigger]
                has_version(records, v) ==> has_version(after, v) && checksum_of(after, v)
                    == checksum_of(records, v)
            &&& match report {
                RunnerReport::Applied => true,
                RunnerReport::ChecksumMismatch(v) => has_version(manifest, v) && has_version(after, v)
                    && checksum_of(after, v) != checksum_of(manifest, v),
                RunnerReport::OtherError => false,
            }
        }),
    decreases manifest.len() - from,
{
    if from < manifest.len() {
        let entry = manifest[from];
        lemma_increasing_is_distinct(manifest);
        lemma_index_of_unique(manifest, from);
        if !has_version(records, entry.version) {
            let grown = records.push(entry);
            lemma_push_distinct(records, entry);
            assert(all_known(manifest, grown)) by {
                assert forall|i: int| 0 <= i < grown.len() implies has_version(
                    manifest,
                    (#[trigger] grown[i]).version,
                ) by {
                    if i < records.len() {
                        assert(grown[i] == records[i]);
                    }
                }
            }
            lemma_walk_facts(manifest, grown, from + 1);
            let after = apply_from(manifest, grown, from + 1).0;
            assert forall|v: i64| #[trigger] has_version(records, v) implies has_version(after, v)
                && checksum_of(after, v) == checksum_of(records, v) by {
                lemma_push_keeps(records, entry, v);
            }
        } else if checksum_of(records, entry.version) == entry.checksum {
            lemma_walk_facts(manifest, records, from + 1);
        }
    }
}

/// From a history without a record unknown to the manifest, the loop of
/// runs ends in success: each drifted checksum is repaired once, and no
/// repaired version mismatches again.
proof fn lemma_rounds_succeed(manifest: Seq<Entry>, records: Seq<Entry>, m: Machine, rounds: nat)
    requires
        strictly_increasing(manifest),
        distinct_versions(records),
        all_known(manifest, records),
        m.phase == Phase::Applying,
        repairs_within(manifest, m),
        repairs_hold(manifest, records, m.repaired),
        rounds + m.repaired.len() == manifest.len() + 1,
    ensures
        rounds_from(manifest, records, m, rounds).machine.phase == Phase::Finished(
            Outcome::Reconciled,
        ),
    decreases rounds,
{
    crate::reconcile::lemma_repairs_bounded(manifest, m);
    lemma_all_known_none(manifest, records, 0);
    lemma_walk_facts(manifest, records, 0);
    let (after, report) = runner(manifest, records);
    let reported = after_report(manifest, m, report);
    match report {
        RunnerReport::ChecksumMismatch(version) => {
            if m.repaired.contains(version) {
                let j = choose|j: int| 0 <= j < m.repaired.len() && m.repaired[j] == version;
                assert(has_version(records, m.repaired[j]));
            }
            let checksum = checksum_of(manifest, version);
            let repaired = overwritten(after, version, checksum);
            let next = after_repair(reported, true);
            crate::reconcile::lemma_steps_keep_within(manifest, m, report, true);
            lemma_update_distinct(
                after,
                index_of(after, version),
                Entry { version, checksum },
            );
            assert(all_known(manifest, repaired)) by {
                assert forall|i: int| 0 <= i < repaired.len() implies has_version(
                    manifest,
                    (#[trigger] repaired[i]).version,
                ) by {
                    assert(has_version(manifest, after[i].version));
                }
            }
            assert(repairs_hold(manifest, repaired, next.repaired)) by {
                assert forall|j: int| 0 <= j < next.repaired.len() implies has_version(
                    repaired,
                    #[trigger] next.repaired[j],
                ) && checksum_of(repaired, next.repaired[j]) == checksum_of(
                    manifest,
                    next.repaired[j],
                ) by {
                    if j < m.repaired.len() {
                        assert(next.repaired[j] == m.repaired[j]);
                        assert(has_version(records, m.repaired[j]));
                    }
                    lemma_overwrite_keeps(after, version, checksum, next.repaired[j]);
                }
            }
            lemma_rounds_succeed(manifest, repaired, next, (rounds - 1) as nat);
        },
        _ => {},
    }
}

/// Whatever checksums have drifted: where every record of the history is of
/// a version that the manifest has, the reconciliation succeeds, and the
/// history then holds for every entry of the manifest one record with the
/// entry's checksum.
pub proof fn lemma_known_history_reconciles(manifest: Seq<Entry>, records: Seq<Entry>)
    requires
        strictly_increasing(manifest),
        distinct_versions(records),
        all_known(manifest, records),
    ensures
        reconciled(manifest, records, false).machine.phase == Phase::Finished(Outcome::Reconciled),
        agrees(manifest, reconciled(manifest, records, false).records),
        distinct_versions(reconciled(manifest, records, false).records),
{
    lemma_rounds_succeed(manifest, records, begun(false), manifest.len() + 1);
    lemma_success_agrees(manifest, records);
}

/// The record of `version` holds another checksum than the manifest's
/// entry for it.
pub open spec fn drifted(manifest: Seq<Entry>, records: Seq<Entry>, version: i64) -> bool {
    has_version(records, version) && checksum_of(records, version) != checksum_of(
        manifest,
        version,
    )
}

/// `entry` is one of the manifest's entries.
pub open spec fn shipped_entry(manifest: Seq<Entry>, entry: Entry) -> bool {
    exists|k: int| 0 <= k < manifest.len() && #[trigger] manifest[k] == entry
}

/// The runner's walk leaves the records that were there where they were,
/// and every record that it adds is an entry of the manifest.
proof fn lemma_walk_extends(manifest: Seq<Entry>, records: Seq<Entry>, from: int)
    requires
        0 <= from,
    ensures
        ({
            let after = apply_from(manifest, records, from).0;
            &&& records.len() <= after.len()
            &&& forall|i: int| 0 <= i < records.len() ==> #[trigger] after[i] == records[i]
            &&& forall|i: int|
                records.len() <= i < after.len() ==> shipped_entry(manifest, #[trigger] after[i])
        }),
    decreases manifest.len() - from,
{
    if from < manifest.len() {
        let entry = manifest[from];
        if !has_version(records, entry.version) {
            let grown = records.push(entry);
            lemma_walk_extends(manifest, grown, from + 1);
            let after = apply_from(manifest, grown, from + 1).0;
            assert forall|i: int| 0 <= i < records.len() implies #[trigger] after[i]
                == records[i] by {
                assert(after[i] == grown[i]);
            }
            assert forall|i: int| records.len() <= i < after.len() implies shipped_entry(
                manifest,
                #[trigger] after[i],
            ) by {
                if i == records.len() {
                    assert(after[i] == grown[i]);
                    assert(manifest[from] == after[i]);
                }
            }
        } else if checksum_of(records, entry.version) == entry.checksum {
            lemma_walk_extends(manifest, records, from + 1);
        }
    }
}

/// A checksum that differs from the manifest's after the runner's walk
/// differed before it: the walk brings no drift of its own.
proof fn lemma_walk_brings_no_drift(manifest: Seq<Entry>, records: Seq<Entry>, version: i64)
    requires
        strictly_increasing(manifest),
        distinct_versions(records),
        all_known(manifest, records),
        drifted(manifest, apply_from(manifest, records, 0).0, version),
    ensures
        drifted(manifest, records, version),
        checksum_of(records, version) == checksum_of(
            apply_from(manifest, records, 0).0,
            version,
        ),
{
    let after = apply_from(manifest, records, 0).0;
    lemma_walk_facts(manifest, records, 0);
    lemma_walk_extends(manifest, records, 0);
    let j = index_of(after, version);
    lemma_index_of_unique(after, j);
    if j < records.len() {
        assert(after[j] == records[j]);
        lemma_index_of_unique(records, j);
    } else {
        assert(shipped_entry(manifest, after[j]));
        let k = choose|k: int| 0 <= k < manifest.len() && #[trigger] manifest[k] == after[j];
        lemma_increasing_is_distinct(manifest);
        lemma_index_of_unique(manifest, k);
    }
}

/// Where the stored checksum of exactly one version has drifted from the
/// manifest's, and every record is of a version that the manifest has, the
/// reconciliation succeeds with exactly one repair, that of this version.
/// Its one write is logged as a warning, and nothing is logged as an error.
pub proof fn lemma_one_drift_one_repair(manifest: Seq<Entry>, records: Seq<Entry>, version: i64)
    requires
        strictly_increasing(manifest),
        distinct_versions(records),
        all_known(manifest, records),
        drifted(manifest, records, version),
        forall|other: i64| other != version ==> !#[trigger] drifted(manifest, records, other),
    ensures
        reconciled(manifest, records, false).machine == (Machine {
            phase: Phase::Finished(Outcome::Reconciled),
            repaired: seq![version],
        }),
        agrees(manifest, reconciled(manifest, records, false).records),
        checksum_of(reconciled(manifest, records, false).records, version) == checksum_of(
            manifest,
            version,
        ),
        level_of(
            ActionView::OverwriteChecksum { version, checksum: checksum_of(manifest, version) },
        ) == Some(Level::Warn),
        level_of(ActionView::Finish(Outcome::Reconciled)) is None,
{
    lemma_increasing_is_distinct(manifest);
    // The version has an entry in the manifest.
    let at = index_of(records, version);
    assert(has_version(manifest, records[at].version));
    let k = index_of(manifest, version);
    lemma_index_of_unique(manifest, k);

    // The first run stops at the drifted version.
    lemma_all_known_none(manifest, records, 0);
    lemma_walk_facts(manifest, records, 0);
    let (after, report) = runner(manifest, records);
    assert(report == RunnerReport::ChecksumMismatch(version)) by {
        match report {
            RunnerReport::Applied => {
                lemma_walk_covers(manifest, records, 0);
                assert(covers(after, manifest[k]));
            },
            RunnerReport::ChecksumMismatch(found) => {
                lemma_walk_brings_no_drift(manifest, records, found);
            },
            RunnerReport::OtherError => {},
        }
    }
    let start = begun(false);
    assert(!start.repaired.contains(version));
    let repairing = after_report(manifest, start, report);
    assert(repairing.repaired =~= seq![version]);
    let retried = after_repair(repairing, has_version(after, version));
    assert(retried == Machine { phase: Phase::Applying, repaired: seq![version] });

    // After the repair no checksum differs, so the second run applies the rest.
    let checksum = checksum_of(manifest, version);
    let mended = overwritten(after, version, checksum);
    let spot = index_of(after, version);
    lemma_update_distinct(after, spot, Entry { version, checksum });
    assert(all_known(manifest, mended)) by {
        assert forall|i: int| 0 <= i < mended.len() implies has_version(
            manifest,
            (#[trigger] mended[i]).version,
        ) by {
            assert(has_version(manifest, after[i].version));
        }
    }
    lemma_all_known_none(manifest, mended, 0);
    lemma_walk_facts(manifest, mended, 0);
    let (last, verdict) = runner(manifest, mended);
    assert(verdict == RunnerReport::Applied) by {
        match verdict {
            RunnerReport::ChecksumMismatch(found) => {
                lemma_walk_brings_no_drift(manifest, mended, found);
                let i = index_of(mended, found);
                assert(after[i].version == found);
                lemma_overwrite_keeps(after, version, checksum, found);
                if found != version {
                    lemma_walk_brings_no_drift(manifest, records, found);
                }
            },
            _ => {},
        }
    }
    let rest = manifest.len() as nat;
    let ended = after_report(manifest, retried, verdict);
    assert(rounds_from(manifest, mended, retried, rest) == Run { records: last, machine: ended });
    assert(rounds_from(manifest, records, start, rest + 1) == rounds_from(
        manifest,
        mended,
        retried,
        rest,
    ));
    lemma_walk_covers(manifest, mended, 0);
    assert(covers(last, manifest[k]));
}

} // verus!
