use vstd::prelude::*;
use crate::classify::{audio_path, is_audio};
use crate::record::{values_of, Metadata, TagValues};
use crate::store::{StoreError, TagTable};
use crate::table::{has_room, lemma_upsert_valid, TableView};

verus! {

/// The single write that reconciling one file makes.
pub enum StoreAction {
    /// No row holds the path yet: add one.
    Insert { path: String, values: TagValues },
    /// Row `id` holds the path: rewrite its columns.
    Update { id: i64, values: TagValues },
}

/// Lookup-then-branch: given the id found for `path` (if any), the write to
/// make. An existing row is updated under its id; otherwise a row is inserted.
pub fn plan_upsert(path: String, found: Option<i64>, values: TagValues) -> (r: StoreAction)
    ensures
        match found {
            Some(id) => r == (StoreAction::Update { id, values }),
            None => r == (StoreAction::Insert { path, values }),
        },
{
    match found {
        Some(id) => StoreAction::Update { id, values },
        None => StoreAction::Insert { path, values },
    }
}

/// An update must change exactly one row; any other count is a fatal error.
pub fn check_rows_affected(n: u64) -> (r: Result<(), StoreError>)
    ensures
        n == 1 ==> r is Ok,
        n != 1 ==> r == Err::<(), StoreError>(StoreError::RowsAffected(n)),
{
    if n == 1 {
        Ok(())
    } else {
        Err(StoreError::RowsAffected(n))
    }
}

/// One regular file met while walking: its path and what extracting its
/// metadata gave (the cause of the failure, as text, if it failed).
pub struct ScanEntry {
    pub path: String,
    pub extracted: Result<Metadata, String>,
}

/// What a scan did: rows written, and files whose extraction failed.
pub struct ScanSummary {
    pub written: usize,
    pub failed: usize,
}

/// An entry that becomes a row: an audio file whose metadata was extracted.
pub open spec fn is_written(e: ScanEntry) -> bool {
    audio_path(e.path@) && e.extracted is Ok
}

/// An entry that gives a diagnostic: an audio file whose extraction failed.
pub open spec fn is_failed(e: ScanEntry) -> bool {
    audio_path(e.path@) && e.extracted is Err
}

pub open spec fn count_written(es: Seq<ScanEntry>) -> nat
    decreases es.len(),
{
    if es.len() == 0 {
        0
    } else {
        count_written(es.drop_last()) + if is_written(es.last()) {
            1nat
        } else {
            0nat
        }
    }
}

pub open spec fn count_failed(es: Seq<ScanEntry>) -> nat
    decreases es.len(),
{
    if es.len() == 0 {
        0
    } else {
        count_failed(es.drop_last()) + if is_failed(es.last()) {
            1nat
        } else {
            0nat
        }
    }
}

/// The table after reconciling each entry in turn: audio files with metadata
/// are upserted, everything else leaves the table as it is.
pub open spec fn scanned(t: TableView, es: Seq<ScanEntry>, now: int) -> TableView
    decreases es.len(),
{
    if es.len() == 0 {
        t
    } else {
        let prev = scanned(t, es.drop_last(), now);
        let e = es.last();
        if is_written(e) {
            prev.upserted(e.path@, values_of(e.extracted->Ok_0), now)
        } else {
            prev
        }
    }
}

/// Room enough in ids for `n` more inserts.
pub open spec fn room_for(t: TableView, n: int) -> bool {
    t.next_id + n < i64::MAX
}

/// What scanning does with one entry.
pub enum EntryStep {
    /// Not an audio file: no row and no diagnostic.
    Skip,
    /// An audio file whose extraction failed: report it and go on.
    Diagnose,
    /// An audio file with metadata: upsert these columns for its path.
    Upsert(TagValues),
}

/// Decides what becomes of one entry met while walking.
pub fn entry_step(e: &ScanEntry) -> (r: EntryStep)
    ensures
        !audio_path(e.path@) ==> r is Skip,
        is_failed(*e) ==> r is Diagnose,
        is_written(*e) ==> r == EntryStep::Upsert(values_of(e.extracted->Ok_0)),
{
    if !is_audio(e.path.as_str()) {
        return EntryStep::Skip;
    }
    match &e.extracted {
        Ok(m) => EntryStep::Upsert(TagValues::from_metadata(m)),
        Err(_) => EntryStep::Diagnose,
    }
}

impl TagTable {
    /// Makes the write that `action` describes.
    pub fn apply(&mut self, action: StoreAction, now: u64) -> (r: Result<i64, StoreError>)
        requires
            old(self)@.valid(),
            has_room(old(self)@),
        ensures
            final(self)@.valid(),
            match action {
                StoreAction::Insert { path, values } => {
                    &&& old(self)@.has_path(path@) ==> r == Err::<i64, StoreError>(
                        StoreError::DuplicatePath,
                    ) && final(self)@ == old(self)@
                    &&& !old(self)@.has_path(path@) ==> r == Ok::<i64, StoreError>(
                        old(self)@.next_id as i64,
                    ) && final(self)@ == old(self)@.inserted(path@, values, now as int)
                },
                StoreAction::Update { id, values } => {
                    &&& !old(self)@.has_id(id as int) ==> r == Err::<i64, StoreError>(
                        StoreError::RowsAffected(0),
                    ) && final(self)@ == old(self)@
                    &&& old(self)@.has_id(id as int) ==> r == Ok::<i64, StoreError>(id)
                        && final(self)@ == old(self)@.updated(
                        old(self)@.index_of_id(id as int),
                        values,
                        now as int,
                    )
                },
            },
    {
        match action {
            StoreAction::Insert { path, values } => self.insert(path, values, now),
            StoreAction::Update { id, values } => match self.update(id, values, now) {
                Ok(()) => Ok(id),
                Err(e) => Err(e),
            },
        }
    }

    /// Finds the row of `path` and rewrites it with `values`, or inserts one;
    /// returns the row's id. An existing row keeps its id.
    pub fn reconcile(&mut self, path: String, values: TagValues, now: u64) -> (r: Result<i64, StoreError>)
        requires
            old(self)@.valid(),
            has_room(old(self)@),
        ensures
            final(self)@.valid(),
            r == Ok::<i64, StoreError>(old(self)@.upserted_id(path@) as i64),
            final(self)@ == old(self)@.upserted(path@, values, now as int),
    {
        let ghost t = self@;
        let found = self.find_id_by_path(path.as_str());
        proof {
            if t.has_path(path@) {
                let k = t.index_of(path@);
                let id = t.rows[k].id;
                assert(t.has_id(id));
                let j = t.index_of_id(id);
                assert(j == k) by {
                    if j != k {
                        if j < k {
                            assert(t.rows[j].id != t.rows[k].id);
                        } else {
                            assert(t.rows[k].id != t.rows[j].id);
                        }
                    }
                }
            }
        }
        let action = plan_upsert(path, found, values);
        self.apply(action, now)
    }

    /// Reconciles every audio entry whose metadata was extracted, in order;
    /// entries that are not audio are passed over, and audio entries whose
    /// extraction failed are counted and skipped.
    pub fn scan(&mut self, entries: &Vec<ScanEntry>, now: u64) -> (r: ScanSummary)
        requires
            old(self)@.valid(),
            room_for(old(self)@, entries@.len() as int),
        ensures
            final(self)@.valid(),
            final(self)@ == scanned(old(self)@, entries@, now as int),
            r.written == count_written(entries@),
            r.failed == count_failed(entries@),
    {
        let ghost t0 = self@;
        let mut written: usize = 0;
        let mut failed: usize = 0;
        let mut i: usize = 0;
        while i < entries.len()
            invariant
                i <= entries@.len(),
                self@.valid(),
                self@ == scanned(t0, entries@.take(i as int), now as int),
                written == count_written(entries@.take(i as int)),
                failed == count_failed(entries@.take(i as int)),
                written <= i,
                failed <= i,
                self@.next_id <= t0.next_id + i,
                room_for(t0, entries@.len() as int),
            decreases entries@.len() - i,
        {
            let e = &entries[i];
            let ghost prefix = entries@.take(i as int);
            let ghost next = entries@.take(i + 1);
            assert(next.drop_last() =~= prefix);
            assert(next.last() == entries@[i as int]);
            match entry_step(e) {
                EntryStep::Upsert(values) => {
                    proof {
                        lemma_upsert_valid(self@, e.path@, values, now as int);
                    }
                    let _ = self.reconcile(e.path.clone(), values, now);
                    written += 1;
                },
                EntryStep::Diagnose => {
                    failed += 1;
                },
                EntryStep::Skip => {},
            }
            i += 1;
        }
        assert(entries@.take(entries@.len() as int) =~= entries@);
        ScanSummary { written, failed }
    }
}

} // verus!
