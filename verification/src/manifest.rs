//! The ordered, immutable list of migrations that a binary ships with.

use vstd::prelude::*;

verus! {

/// One versioned schema change: its version and the content hash of its body.
#[derive(Debug, Clone, PartialEq, Eq)]
pub struct Migration {
    pub version: i64,
    pub checksum: Vec<u8>,
}

/// A version with its checksum, as contracts speak of it: an entry of the
/// manifest, or a record of the history.
pub struct Entry {
    pub version: i64,
    pub checksum: Seq<u8>,
}

impl View for Migration {
    type V = Entry;

    open spec fn view(&self) -> Entry {
        Entry { version: self.version, checksum: self.checksum@ }
    }
}

/// The entries that a list of migrations stands for, in its order.
pub open spec fn entries_of(items: Seq<Migration>) -> Seq<Entry> {
    Seq::new(items.len(), |i: int| items[i]@)
}

/// Some entry of `entries` carries `version`.
pub open spec fn has_version(entries: Seq<Entry>, version: i64) -> bool {
    exists|i: int| 0 <= i < entries.len() && (#[trigger] entries[i]).version == version
}

/// The position of an entry that carries `version`, where there is one.
pub open spec fn index_of(entries: Seq<Entry>, version: i64) -> int {
    choose|i: int| 0 <= i < entries.len() && (#[trigger] entries[i]).version == version
}

/// The checksum that `entries` gives for `version`, where it has that version.
pub open spec fn checksum_of(entries: Seq<Entry>, version: i64) -> Seq<u8> {
    entries[index_of(entries, version)].checksum
}

/// No version occurs twice.
pub open spec fn distinct_versions(entries: Seq<Entry>) -> bool {
    forall|i: int, j: int|
        0 <= i < j < entries.len() ==> (#[trigger] entries[i]).version != (#[trigger] entries[j]).version
}

/// Versions grow strictly along the sequence.
pub open spec fn strictly_increasing(entries: Seq<Entry>) -> bool {
    forall|i: int, j: int|
        0 <= i < j < entries.len() ==> (#[trigger] entries[i]).version < (#[trigger] entries[j]).version
}

/// Versions that grow strictly are distinct.
pub proof fn lemma_increasing_is_distinct(entries: Seq<Entry>)
    requires
        strictly_increasing(entries),
    ensures
        distinct_versions(entries),
{
}

/// Where versions are distinct, the entry at `i` is the one that `index_of`
/// picks for its version.
pub proof fn lemma_index_of_unique(entries: Seq<Entry>, i: int)
    requires
        distinct_versions(entries),
        0 <= i < entries.len(),
    ensures
        has_version(entries, entries[i].version),
        index_of(entries, entries[i].version) == i,
        checksum_of(entries, entries[i].version) == entries[i].checksum,
{
    let v = entries[i].version;
    let k = index_of(entries, v);
    assert(0 <= k < entries.len() && entries[k].version == v);
    if k < i {
        assert(entries[k].version != entries[i].version);
    }
    if i < k {
        assert(entries[i].version != entries[k].version);
    }
}

/// Adjacent entries in order make the whole sequence strictly increasing.
pub proof fn lemma_adjacent_gives_increasing(entries: Seq<Entry>)
    requires
        forall|k: int| 0 < k < entries.len() ==> (#[trigger] entries[k - 1]).version < entries[k].version,
    ensures
        strictly_increasing(entries),
{
    assert forall|i: int, j: int| 0 <= i < j < entries.len() implies (#[trigger] entries[i]).version < (
    #[trigger] entries[j]).version by {
        lemma_span_increasing(entries, i, j);
    }
}

proof fn lemma_span_increasing(entries: Seq<Entry>, i: int, j: int)
    requires
        forall|k: int| 0 < k < entries.len() ==> (#[trigger] entries[k - 1]).version < entries[k].version,
        0 <= i < j < entries.len(),
    ensures
        entries[i].version < entries[j].version,
    decreases j - i,
{
    assert(entries[(j - 1)].version < entries[j].version);
    if i < j - 1 {
        lemma_span_increasing(entries, i, j - 1);
    }
}

/// The position of the migration that carries `version`, if there is one.
/// Of several it is the first.
pub fn position(items: &Vec<Migration>, version: i64) -> (found: Option<usize>)
    ensures
        found is Some <==> has_version(entries_of(items@), version),
        found matches Some(i) ==> i < items@.len() && items@[i as int].version == version && forall|
            k: int,
        | 0 <= k < i ==> items@[k].version != version,
{
    let ghost entries = entries_of(items@);
    let mut i: usize = 0;
    while i < items.len()
        invariant
            i <= items.len(),
            entries == entries_of(items@),
            forall|k: int| 0 <= k < i ==> (#[trigger] entries[k]).version != version,
        decreases items.len() - i,
    {
        if items[i].version == version {
            assert(entries[i as int].version == version);
            assert forall|k: int| 0 <= k < i implies items@[k].version != version by {
                assert(entries[k].version != version);
            }
            return Some(i);
        }
        i += 1;
    }
    None
}

/// The migrations of one binary, sorted by version ascending.
pub struct Manifest {
    entries: Vec<Migration>,
}

impl View for Manifest {
    type V = Seq<Entry>;

    closed spec fn view(&self) -> Seq<Entry> {
        entries_of(self.entries@)
    }
}

impl Manifest {
    /// A manifest is well formed when its versions grow strictly.
    pub open spec fn wf(&self) -> bool {
        strictly_increasing(self@)
    }

    /// Takes `entries` as a manifest if their versions grow strictly, and
    /// refuses them otherwise.
    pub fn new(entries: Vec<Migration>) -> (made: Option<Manifest>)
        ensures
            made is Some <==> strictly_increasing(entries_of(entries@)),
            made matches Some(m) ==> m@ == entries_of(entries@) && m.wf(),
    {
        let ghost listed = entries_of(entries@);
        let mut i: usize = 1;
        while i < entries.len()
            invariant
                1 <= i,
                listed == entries_of(entries@),
                forall|k: int| 0 < k < i && k < listed.len() ==> (#[trigger] listed[k - 1]).version < listed[k].version,
            decreases entries.len() - i,
        {
            if entries[i - 1].version >= entries[i].version {
                assert(!strictly_increasing(listed)) by {
                    if strictly_increasing(listed) {
                        assert(listed[i - 1].version < listed[i as int].version);
                    }
                }
                return None;
            }
            i += 1;
        }
        proof {
            lemma_adjacent_gives_increasing(listed);
        }
        Some(Manifest { entries })
    }

    /// The number of migrations.
    pub fn len(&self) -> (n: usize)
        ensures
            n == self@.len(),
    {
        self.entries.len()
    }

    /// The migration at position `i`, counted from the lowest version.
    pub fn get(&self, i: usize) -> (entry: Option<&Migration>)
        ensures
            entry is Some <==> i < self@.len(),
            entry matches Some(m) ==> m@ == self@[i as int],
    {
        if i < self.entries.len() {
            Some(&self.entries[i])
        } else {
            None
        }
    }

    /// The migration at position `i`, which the manifest has.
    pub(crate) fn at(&self, i: usize) -> (entry: &Migration)
        requires
            i < self@.len(),
        ensures
            entry@ == self@[i as int],
    {
        &self.entries[i]
    }

    /// The manifest entry for `version`, if the manifest has one.
    pub fn find(&self, version: i64) -> (found: Option<&Migration>)
        requires
            self.wf(),
        ensures
            found is Some <==> has_version(self@, version),
            found matches Some(m) ==> m.version == version && m.checksum@ == checksum_of(
                self@,
                version,
            ) && m@ == self@[index_of(self@, version)],
    {
        match position(&self.entries, version) {
            Some(i) => {
                proof {
                    lemma_increasing_is_distinct(self@);
                    lemma_index_of_unique(self@, i as int);
                }
                Some(&self.entries[i])
            },
            None => None,
        }
    }
}

} // verus!
