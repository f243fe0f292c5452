//! Synchronisation bookkeeping: the staging manifest of one worker run, and the
//! per-trading-day manifest of what has been stored.

use vstd::prelude::*;

use crate::dataset::Dataset;
use crate::date::Date;
use crate::text::str_eq;

verus! {

/// Outcome of synchronising one unit of data.
#[derive(Debug, Clone, Copy, PartialEq, Eq, Structural)]
pub enum SyncStatus {
    /// Succeeded.
    Done,
    /// Partly succeeded (some stocks missing).
    Partial,
    /// Failed; needs a retry or a look by hand.
    Failed,
    /// Skipped (suspension, non-trading day, no data at the source).
    Skipped,
}

/// Whether a status blocks downstream use: failed or partial.
pub open spec fn is_blocking(status: SyncStatus) -> bool {
    status == SyncStatus::Failed || status == SyncStatus::Partial
}

/// One record of a worker's staging manifest: a fetch of one dataset, source and symbol.
#[derive(Debug, Clone)]
pub struct StagingEntry {
    pub dataset: Dataset,
    pub source: String,
    pub symbol: String,
    pub rows: u64,
    pub status: SyncStatus,
    pub updated_at: String,
    pub note: Option<String>,
}

/// The entries of a worker's staging manifest, in file order.
#[derive(Debug, Clone)]
pub struct StagingManifest {
    entries: Vec<StagingEntry>,
}

/// The entries with the given status.
pub open spec fn staging_with_status(entries: Seq<StagingEntry>, status: SyncStatus) -> Seq<
    StagingEntry,
> {
    entries.filter(|e: StagingEntry| e.status == status)
}

/// The failed or partial entries.
pub open spec fn staging_blocking(entries: Seq<StagingEntry>) -> Seq<StagingEntry> {
    entries.filter(|e: StagingEntry| is_blocking(e.status))
}

/// The values behind a sequence of references.
pub open spec fn derefs<T>(refs: Seq<&T>) -> Seq<T> {
    refs.map_values(|r: &T| *r)
}

impl Default for StagingManifest {
    fn default() -> (manifest: Self)
        ensures
            manifest.spec_entries() == Seq::<StagingEntry>::empty(),
    {
        StagingManifest { entries: Vec::new() }
    }
}

impl StagingManifest {
    /// The entries, in the order they were read.
    pub closed spec fn spec_entries(&self) -> Seq<StagingEntry> {
        self.entries@
    }

    /// Adds the entry read from the next line of the manifest file.
    pub fn push(&mut self, entry: StagingEntry)
        ensures
            final(self).spec_entries() == old(self).spec_entries().push(entry),
    {
        self.entries.push(entry);
    }

    pub fn entries(&self) -> (entries: &[StagingEntry])
        ensures
            entries@ == self.spec_entries(),
    {
        self.entries.as_slice()
    }

    /// The entries whose status is `done`, in order.
    pub fn done_entries(&self) -> (done: Vec<&StagingEntry>)
        ensures
            derefs(done@) == staging_with_status(self.spec_entries(), SyncStatus::Done),
    {
        let mut done: Vec<&StagingEntry> = Vec::new();
        for i in 0..self.entries.len()
            invariant
                derefs(done@) == staging_with_status(
                    self.entries@.take(i as int),
                    SyncStatus::Done,
                ),
        {
            let entry = &self.entries[i];
            proof {
                reveal_with_fuel(Seq::filter, 1);
                assert(self.entries@.take(i + 1).drop_last() =~= self.entries@.take(i as int));
            }
            if entry.status == SyncStatus::Done {
                done.push(entry);
            }
            assert(derefs(done@) =~= staging_with_status(
                self.entries@.take(i + 1),
                SyncStatus::Done,
            ));
        }
        assert(self.entries@.take(self.entries@.len() as int) =~= self.entries@);
        done
    }

    /// The entries that failed or only partly succeeded, in order.
    pub fn failed_entries(&self) -> (failed: Vec<&StagingEntry>)
        ensures
            derefs(failed@) == staging_blocking(self.spec_entries()),
    {
        let mut failed: Vec<&StagingEntry> = Vec::new();
        for i in 0..self.entries.len()
            invariant
                derefs(failed@) == staging_blocking(self.entries@.take(i as int)),
        {
            let entry = &self.entries[i];
            proof {
                reveal_with_fuel(Seq::filter, 1);
                assert(self.entries@.take(i + 1).drop_last() =~= self.entries@.take(i as int));
            }
            if entry.status == SyncStatus::Failed || entry.status == SyncStatus::Partial {
                failed.push(entry);
            }
            assert(derefs(failed@) =~= staging_blocking(self.entries@.take(i + 1)));
        }
        assert(self.entries@.take(self.entries@.len() as int) =~= self.entries@);
        failed
    }
}

/// The stored state of one (dataset, source, trading day).
#[derive(Debug, Clone)]
pub struct SyncEntry {
    pub dataset: Dataset,
    pub source: String,
    pub trade_date: Date,
    pub status: SyncStatus,
    /// Rows written.
    pub rows: u64,
    /// Completion time (UTC, RFC 3339).
    pub updated_at: String,
    /// Note (reason of a failure and the like).
    pub note: Option<String>,
}

impl SyncEntry {
    /// A successful entry, stamped with `updated_at`, the completion time that the
    /// caller read from the clock (UTC, RFC 3339).
    pub fn done(
        dataset: Dataset,
        source: &str,
        trade_date: Date,
        rows: u64,
        updated_at: String,
    ) -> (entry: SyncEntry)
        ensures
            entry.dataset == dataset,
            entry.source@ == source@,
            entry.trade_date == trade_date,
            entry.status == SyncStatus::Done,
            entry.rows == rows,
            entry.updated_at == updated_at,
            entry.note is None,
    {
        SyncEntry {
            dataset,
            source: source.to_string(),
            trade_date,
            status: SyncStatus::Done,
            rows,
            updated_at,
            note: None,
        }
    }
}

/// The key under which the manifest keeps an entry.
pub open spec fn entry_key(entry: SyncEntry) -> (Dataset, Seq<char>, Date) {
    (entry.dataset, entry.source@, entry.trade_date)
}

/// No two entries share a key.
pub open spec fn keys_unique(entries: Seq<SyncEntry>) -> bool {
    forall|i: int, j: int|
        0 <= i < entries.len() && 0 <= j < entries.len() && i != j ==> entry_key(
            #[trigger] entries[i],
        ) != entry_key(#[trigger] entries[j])
}

/// The entries as a map from key to entry.
pub open spec fn index_of(entries: Seq<SyncEntry>) -> Map<(Dataset, Seq<char>, Date), SyncEntry> {
    Map::new(
        |k: (Dataset, Seq<char>, Date)|
            exists|i: int| 0 <= i < entries.len() && entry_key(#[trigger] entries[i]) == k,
        |k: (Dataset, Seq<char>, Date)|
            entries[choose|i: int| 0 <= i < entries.len() && entry_key(#[trigger] entries[i]) == k],
    )
}

/// Whether the manifest records `date` of `dataset` from `source` as done.
pub open spec fn is_done(
    index: Map<(Dataset, Seq<char>, Date), SyncEntry>,
    dataset: Dataset,
    source: Seq<char>,
    date: Date,
) -> bool {
    index.contains_key((dataset, source, date)) && index[(dataset, source, date)].status
        == SyncStatus::Done
}

/// In a manifest with unique keys, the map sends each entry's key to that entry.
pub proof fn lemma_index_at(entries: Seq<SyncEntry>, i: int)
    requires
        keys_unique(entries),
        0 <= i < entries.len(),
    ensures
        index_of(entries).contains_key(entry_key(entries[i])),
        index_of(entries)[entry_key(entries[i])] == entries[i],
{
    let k = entry_key(entries[i]);
    assert(0 <= i < entries.len() && entry_key(entries[i]) == k);
    let j = choose|j: int| 0 <= j < entries.len() && entry_key(#[trigger] entries[j]) == k;
    assert(j == i);
}

/// The synchronisation manifest of one dataset file, indexed by (dataset, source, day).
#[derive(Debug)]
pub struct SyncManifest {
    entries: Vec<SyncEntry>,
}

impl Default for SyncManifest {
    fn default() -> (manifest: Self)
        ensures
            manifest.index() == Map::<(Dataset, Seq<char>, Date), SyncEntry>::empty(),
            manifest.entry_seq() == Seq::<SyncEntry>::empty(),
    {
        let manifest = SyncManifest { entries: Vec::new() };
        assert(manifest.index() =~= Map::<(Dataset, Seq<char>, Date), SyncEntry>::empty());
        manifest
    }
}

impl SyncManifest {
    #[verifier::type_invariant]
    spec fn well_formed(self) -> bool {
        keys_unique(self.entries@)
    }

    /// The entries, one per key, in the order their keys were first recorded.
    pub closed spec fn entry_seq(&self) -> Seq<SyncEntry> {
        self.entries@
    }

    /// The manifest as a map from (dataset, source, day) to the latest entry.
    pub closed spec fn index(&self) -> Map<(Dataset, Seq<char>, Date), SyncEntry> {
        index_of(self.entries@)
    }

    /// The entry list and the index agree: each entry is the index's value at its own key,
    /// and every key of the index belongs to an entry.
    pub proof fn lemma_entries_are_index(self)
        requires
            keys_unique(self.entry_seq()),
        ensures
            forall|i: int|
                0 <= i < self.entry_seq().len() ==> self.index().contains_key(
                    entry_key(#[trigger] self.entry_seq()[i]),
                ) && self.index()[entry_key(self.entry_seq()[i])] == self.entry_seq()[i],
            forall|k: (Dataset, Seq<char>, Date)|
                #[trigger] self.index().contains_key(k) ==> exists|i: int|
                    0 <= i < self.entry_seq().len() && entry_key(self.entry_seq()[i]) == k,
    {
        assert forall|i: int| 0 <= i < self.entry_seq().len() implies self.index().contains_key(
            entry_key(#[trigger] self.entry_seq()[i]),
        ) && self.index()[entry_key(self.entry_seq()[i])] == self.entry_seq()[i] by {
            lemma_index_at(self.entries@, i);
        }
    }

    /// Records `entry`, replacing any entry with the same dataset, source and day.
    pub fn insert(&mut self, entry: SyncEntry)
        ensures
            final(self).index() == old(self).index().insert(entry_key(entry), entry),
    {
        proof {
            use_type_invariant(&*self);
        }
        let ghost old_entries = self.entries@;
        let mut i: usize = 0;
        while i < self.entries.len()
            invariant
                self.entries@ == old_entries,
                keys_unique(old_entries),
                i <= old_entries.len(),
                forall|j: int| 0 <= j < i ==> entry_key(#[trigger] old_entries[j]) != entry_key(entry),
            ensures
                i <= old_entries.len(),
                i < old_entries.len() ==> entry_key(old_entries[i as int]) == entry_key(entry),
                forall|j: int| 0 <= j < i ==> entry_key(#[trigger] old_entries[j]) != entry_key(entry),
            decreases old_entries.len() - i,
        {
            let current = &self.entries[i];
            if current.dataset == entry.dataset && current.trade_date == entry.trade_date
                && current.source == entry.source {
                break;
            }
            i = i + 1;
        }
        let ghost key = entry_key(entry);
        if i < self.entries.len() {
            assert(entry_key(old_entries[i as int]) == key);
            let mut entries: Vec<SyncEntry> = Vec::new();
            std::mem::swap(&mut entries, &mut self.entries);
            entries.set(i, entry);
            let ghost new_entries = entries@;
            assert(new_entries == old_entries.update(i as int, entry));
            assert(keys_unique(new_entries)) by {
                assert forall|a: int, b: int|
                    0 <= a < new_entries.len() && 0 <= b < new_entries.len() && a != b implies entry_key(
                    #[trigger] new_entries[a],
                ) != entry_key(#[trigger] new_entries[b]) by {
                    if a != i && b != i {
                        assert(entry_key(old_entries[a]) != entry_key(old_entries[b]));
                    } else if a == i {
                        assert(entry_key(old_entries[i as int]) != entry_key(old_entries[b]));
                    } else {
                        assert(entry_key(old_entries[i as int]) != entry_key(old_entries[a]));
                    }
                }
            }
            assert(index_of(new_entries) =~= index_of(old_entries).insert(key, entry)) by {
                assert forall|k: (Dataset, Seq<char>, Date)|
                    #[trigger] index_of(new_entries).contains_key(k)
                        <==> index_of(old_entries).insert(key, entry).contains_key(k) by {
                    if index_of(old_entries).contains_key(k) {
                        let j = choose|j: int|
                            0 <= j < old_entries.len() && entry_key(#[trigger] old_entries[j]) == k;
                        if j == i {
                            assert(entry_key(new_entries[i as int]) == k);
                        } else {
                            assert(entry_key(new_entries[j]) == k);
                        }
                    }
                    if index_of(new_entries).contains_key(k) {
                        let j = choose|j: int|
                            0 <= j < new_entries.len() && entry_key(#[trigger] new_entries[j]) == k;
                        if j != i {
                            assert(entry_key(old_entries[j]) == k);
                        }
                    }
                }
                assert forall|k: (Dataset, Seq<char>, Date)|
                    #[trigger] index_of(new_entries).contains_key(k) implies index_of(
                    new_entries,
                )[k] == index_of(old_entries).insert(key, entry)[k] by {
                    let j = choose|j: int|
                        0 <= j < new_entries.len() && entry_key(#[trigger] new_entries[j]) == k;
                    lemma_index_at(new_entries, j);
                    if j != i {
                        lemma_index_at(old_entries, j);
                    }
                }
            }
            self.entries = entries;
        } else {
            let mut entries: Vec<SyncEntry> = Vec::new();
            std::mem::swap(&mut entries, &mut self.entries);
            entries.push(entry);
            let ghost new_entries = entries@;
            assert(new_entries == old_entries.push(entry));
            assert(keys_unique(new_entries)) by {
                assert forall|a: int, b: int|
                    0 <= a < new_entries.len() && 0 <= b < new_entries.len() && a != b implies entry_key(
                    #[trigger] new_entries[a],
                ) != entry_key(#[trigger] new_entries[b]) by {
                    if a < old_entries.len() && b < old_entries.len() {
                        assert(entry_key(old_entries[a]) != entry_key(old_entries[b]));
                    }
                }
            }
            assert(index_of(new_entries) =~= index_of(old_entries).insert(key, entry)) by {
                assert forall|k: (Dataset, Seq<char>, Date)|
                    #[trigger] index_of(new_entries).contains_key(k)
                        <==> index_of(old_entries).insert(key, entry).contains_key(k) by {
                    if index_of(old_entries).contains_key(k) {
                        let j = choose|j: int|
                            0 <= j < old_entries.len() && entry_key(#[trigger] old_entries[j]) == k;
                        assert(entry_key(new_entries[j]) == k);
                    }
                    if k == key {
                        assert(entry_key(new_entries[old_entries.len() as int]) == k);
                    }
                    if index_of(new_entries).contains_key(k) {
                        let j = choose|j: int|
                            0 <= j < new_entries.len() && entry_key(#[trigger] new_entries[j]) == k;
                        if j < old_entries.len() {
                            assert(entry_key(old_entries[j]) == k);
                        }
                    }
                }
                assert forall|k: (Dataset, Seq<char>, Date)|
                    #[trigger] index_of(new_entries).contains_key(k) implies index_of(
                    new_entries,
                )[k] == index_of(old_entries).insert(key, entry)[k] by {
                    let j = choose|j: int|
                        0 <= j < new_entries.len() && entry_key(#[trigger] new_entries[j]) == k;
                    lemma_index_at(new_entries, j);
                    if j < old_entries.len() {
                        lemma_index_at(old_entries, j);
                    }
                }
            }
            self.entries = entries;
        }
    }
}


/// The days of `expected`, in order, that the manifest does not record as done
/// for `dataset` from `source`.
pub open spec fn missing_of(
    index: Map<(Dataset, Seq<char>, Date), SyncEntry>,
    dataset: Dataset,
    source: Seq<char>,
    expected: Seq<Date>,
) -> Seq<Date> {
    expected.filter(|d: Date| !is_done(index, dataset, source, d))
}

/// The entries that failed or only partly succeeded, in order.
pub open spec fn blocking_of(entries: Seq<SyncEntry>) -> Seq<SyncEntry> {
    entries.filter(|e: SyncEntry| is_blocking(e.status))
}

impl SyncManifest {
    /// All entries, one per key.
    pub fn entries(&self) -> (entries: &[SyncEntry])
        ensures
            entries@ == self.entry_seq(),
            keys_unique(self.entry_seq()),
    {
        proof {
            use_type_invariant(self);
        }
        self.entries.as_slice()
    }

    /// The position of the entry with the given key, if there is one.
    fn position(&self, dataset: Dataset, source: &str, date: Date) -> (pos: Option<usize>)
        ensures
            match pos {
                Some(i) => i < self.entry_seq().len() && entry_key(self.entry_seq()[i as int]) == (
                dataset,
                source@,
                date,
                ),
                None => !self.index().contains_key((dataset, source@, date)),
            },
    {
        let ghost key = (dataset, source@, date);
        let mut i: usize = 0;
        while i < self.entries.len()
            invariant
                i <= self.entries@.len(),
                key == (dataset, source@, date),
                forall|j: int| 0 <= j < i ==> entry_key(#[trigger] self.entries@[j]) != key,
            decreases self.entries@.len() - i,
        {
            let current = &self.entries[i];
            if current.dataset == dataset && current.trade_date == date && str_eq(
                current.source.as_str(),
                source,
            ) {
                return Some(i);
            }
            i = i + 1;
        }
        None
    }

    /// The entry recorded for `date` of `dataset` from `source`, if any.
    pub fn status(&self, dataset: Dataset, source: &str, date: Date) -> (found: Option<&SyncEntry>)
        ensures
            match found {
                Some(entry) => self.index().contains_key((dataset, source@, date)) && *entry
                    == self.index()[(dataset, source@, date)],
                None => !self.index().contains_key((dataset, source@, date)),
            },
    {
        proof {
            use_type_invariant(self);
        }
        match self.position(dataset, source, date) {
            Some(i) => {
                proof {
                    lemma_index_at(self.entries@, i as int);
                }
                Some(&self.entries[i])
            },
            None => None,
        }
    }

    /// The days of `expected` that are not recorded as done for `dataset` from
    /// `source`, in the order given (gap detection and retries).
    pub fn missing_dates(&self, dataset: Dataset, source: &str, expected: &[Date]) -> (missing: Vec<
        Date,
    >)
        ensures
            missing@ == missing_of(self.index(), dataset, source@, expected@),
    {
        let mut missing: Vec<Date> = Vec::new();
        for k in 0..expected.len()
            invariant
                missing@ == missing_of(
                    self.index(),
                    dataset,
                    source@,
                    expected@.take(k as int),
                ),
        {
            let d = expected[k];
            let done = match self.status(dataset, source, d) {
                Some(entry) => entry.status == SyncStatus::Done,
                None => false,
            };
            proof {
                reveal_with_fuel(Seq::filter, 1);
                assert(expected@.take(k + 1).drop_last() =~= expected@.take(k as int));
            }
            if !done {
                missing.push(d);
            }
            assert(missing@ =~= missing_of(
                self.index(),
                dataset,
                source@,
                expected@.take(k + 1),
            ));
        }
        assert(expected@.take(expected@.len() as int) =~= expected@);
        missing
    }

    /// The entries that failed or only partly succeeded, in the manifest's order.
    pub fn failed_entries(&self) -> (failed: Vec<&SyncEntry>)
        ensures
            derefs(failed@) == blocking_of(self.entry_seq()),
    {
        let mut failed: Vec<&SyncEntry> = Vec::new();
        for i in 0..self.entries.len()
            invariant
                derefs(failed@) == blocking_of(self.entries@.take(i as int)),
        {
            let entry = &self.entries[i];
            proof {
                reveal_with_fuel(Seq::filter, 1);
                assert(self.entries@.take(i + 1).drop_last() =~= self.entries@.take(i as int));
            }
            if entry.status == SyncStatus::Failed || entry.status == SyncStatus::Partial {
                failed.push(entry);
            }
            assert(derefs(failed@) =~= blocking_of(self.entries@.take(i + 1)));
        }
        assert(self.entries@.take(self.entries@.len() as int) =~= self.entries@);
        failed
    }

    /// The entries that block downstream use: the failed and partial ones.
    pub fn blocking_entries(&self) -> (blocking: Vec<&SyncEntry>)
        ensures
            derefs(blocking@) == blocking_of(self.entry_seq()),
    {
        self.failed_entries()
    }
}

} // verus!
