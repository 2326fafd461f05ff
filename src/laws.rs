use vstd::prelude::*;
use crate::classify::audio_path;
use crate::reconcile::{count_failed, count_written, is_failed, is_written, scanned, ScanEntry};
use crate::record::TagValues;
use crate::table::{lemma_upsert_valid, TableView};

verus! {

/// Some entry of `es` writes a row for path `p`.
pub open spec fn written_path(es: Seq<ScanEntry>, p: Seq<char>) -> bool {
    exists|j: int| 0 <= j < es.len() && is_written(#[trigger] es[j]) && es[j].path@ == p
}

/// The number of entries that are audio files.
pub open spec fn count_candidates(es: Seq<ScanEntry>) -> nat
    decreases es.len(),
{
    if es.len() == 0 {
        0
    } else {
        count_candidates(es.drop_last()) + if audio_path(es.last().path@) {
            1nat
        } else {
            0nat
        }
    }
}

/// No two entries share a path, as when each file is met once.
pub open spec fn distinct_paths(es: Seq<ScanEntry>) -> bool {
    forall|i: int, j: int| 0 <= i < j < es.len() ==> #[trigger] es[i].path@ != #[trigger] es[j].path@
}

proof fn lemma_scanned_valid(t: TableView, es: Seq<ScanEntry>, now: int)
    requires
        t.valid(),
    ensures
        scanned(t, es, now).valid(),
    decreases es.len(),
{
    if es.len() > 0 {
        lemma_scanned_valid(t, es.drop_last(), now);
        let prev = scanned(t, es.drop_last(), now);
        let e = es.last();
        if is_written(e) {
            lemma_upsert_valid(prev, e.path@, values_of_entry(e), now);
        }
    }
}

spec fn values_of_entry(e: ScanEntry) -> TagValues {
    crate::record::values_of(e.extracted->Ok_0)
}

proof fn lemma_upsert_paths(t: TableView, p: Seq<char>, v: TagValues, now: int)
    requires
        t.valid(),
    ensures
        t.upserted(p, v, now).has_path(p),
        forall|q: Seq<char>| t.has_path(q) ==> #[trigger] t.upserted(p, v, now).has_path(q),
        forall|q: Seq<char>| #[trigger] t.upserted(p, v, now).has_path(q) ==> t.has_path(q) || q == p,
{
    let u = t.upserted(p, v, now);
    if t.has_path(p) {
        let k = t.index_of(p);
        assert(u.rows[k].path == p);
    } else {
        assert(u.rows[t.rows.len() as int].path == p);
    }
    assert forall|q: Seq<char>| t.has_path(q) implies #[trigger] u.has_path(q) by {
        let i = choose|i: int| 0 <= i < t.rows.len() && #[trigger] t.rows[i].path == q;
        assert(u.rows[i].path == q);
    }
    assert forall|q: Seq<char>| #[trigger] u.has_path(q) implies t.has_path(q) || q == p by {
        let i = choose|i: int| 0 <= i < u.rows.len() && #[trigger] u.rows[i].path == q;
        if i < t.rows.len() && q != p {
            assert(t.rows[i].path == q);
        }
    }
}

proof fn lemma_scanned_paths(t: TableView, es: Seq<ScanEntry>, now: int)
    requires
        t.valid(),
    ensures
        forall|q: Seq<char>| t.has_path(q) ==> #[trigger] scanned(t, es, now).has_path(q),
        forall|q: Seq<char>| written_path(es, q) ==> #[trigger] scanned(t, es, now).has_path(q),
        forall|q: Seq<char>| #[trigger] scanned(t, es, now).has_path(q) ==> t.has_path(q)
            || written_path(es, q),
    decreases es.len(),
{
    if es.len() > 0 {
        let pre = es.drop_last();
        lemma_scanned_paths(t, pre, now);
        lemma_scanned_valid(t, pre, now);
        let prev = scanned(t, pre, now);
        let s = scanned(t, es, now);
        let e = es.last();
        if is_written(e) {
            lemma_upsert_paths(prev, e.path@, values_of_entry(e), now);
        }
        assert forall|q: Seq<char>| written_path(es, q) implies #[trigger] s.has_path(q) by {
            let j = choose|j: int| 0 <= j < es.len() && is_written(#[trigger] es[j]) && es[j].path@ == q;
            if j < es.len() - 1 {
                assert(pre[j] == es[j]);
                assert(written_path(pre, q));
            }
        }
        assert forall|q: Seq<char>| #[trigger] s.has_path(q) implies t.has_path(q) || written_path(es, q) by {
            if prev.has_path(q) && !t.has_path(q) {
                assert(written_path(pre, q));
                let j = choose|j: int| 0 <= j < pre.len() && is_written(#[trigger] pre[j]) && pre[j].path@ == q;
                assert(es[j] == pre[j]);
            }
            if !prev.has_path(q) {
                assert(es[es.len() - 1] == e);
            }
        }
    }
}

/// The columns that the last entry of `es` written for path `q` carries.
pub open spec fn last_written_values(es: Seq<ScanEntry>, q: Seq<char>) -> TagValues
    decreases es.len(),
{
    if es.len() == 0 {
        arbitrary()
    } else if is_written(es.last()) && es.last().path@ == q {
        crate::record::values_of(es.last().extracted->Ok_0)
    } else {
        last_written_values(es.drop_last(), q)
    }
}

proof fn lemma_scanned_stamps(t: TableView, es: Seq<ScanEntry>, now: int)
    requires
        t.valid(),
    ensures
        forall|i: int|
            0 <= i < scanned(t, es, now).rows.len() && written_path(
                es,
                scanned(t, es, now).rows[i].path,
            ) ==> (#[trigger] scanned(t, es, now).rows[i]).ts == now && scanned(t, es, now).rows[i].values
                == last_written_values(es, scanned(t, es, now).rows[i].path),
    decreases es.len(),
{
    if es.len() > 0 {
        let pre = es.drop_last();
        lemma_scanned_stamps(t, pre, now);
        lemma_scanned_valid(t, pre, now);
        let prev = scanned(t, pre, now);
        let s = scanned(t, es, now);
        let e = es.last();
        assert(es[es.len() - 1] == e);
        if is_written(e) {
            lemma_upsert_valid(prev, e.path@, values_of_entry(e), now);
        }
        assert forall|i: int|
            0 <= i < s.rows.len() && written_path(es, s.rows[i].path) implies (#[trigger] s.rows[i]).ts
            == now && s.rows[i].values == last_written_values(es, s.rows[i].path) by {
            let q = s.rows[i].path;
            let j = choose|j: int| 0 <= j < es.len() && is_written(#[trigger] es[j]) && es[j].path@ == q;
            if is_written(e) && q == e.path@ {
                let p = e.path@;
                if prev.has_path(p) {
                    let k = prev.index_of(p);
                    if i != k {
                        if i < k {
                            assert(s.rows[i].path != s.rows[k].path);
                        } else {
                            assert(s.rows[k].path != s.rows[i].path);
                        }
                    }
                } else if i < prev.rows.len() {
                    assert(prev.rows[i].path == p);
                }
            } else {
                assert(j != es.len() - 1);
                assert(pre[j] == es[j]);
                assert(written_path(pre, q));
                if is_written(e) {
                    let p = e.path@;
                    if prev.has_path(p) {
                        let k = prev.index_of(p);
                        assert(i != k);
                    } else {
                        assert(i != prev.rows.len());
                    }
                }
                assert(s.rows[i] == prev.rows[i]);
            }
        }
    }
}

proof fn lemma_rescan_stable(t: TableView, es: Seq<ScanEntry>, now: int)
    requires
        t.valid(),
        forall|q: Seq<char>| written_path(es, q) ==> t.has_path(q),
    ensures
        scanned(t, es, now).rows.len() == t.rows.len(),
        forall|i: int| 0 <= i < t.rows.len() ==> {
            &&& (#[trigger] scanned(t, es, now).rows[i]).id == t.rows[i].id
            &&& scanned(t, es, now).rows[i].path == t.rows[i].path
            &&& !written_path(es, t.rows[i].path) ==> scanned(t, es, now).rows[i] == t.rows[i]
        },
    decreases es.len(),
{
    if es.len() > 0 {
        let pre = es.drop_last();
        assert forall|q: Seq<char>| written_path(pre, q) implies t.has_path(q) by {
            let j = choose|j: int| 0 <= j < pre.len() && is_written(#[trigger] pre[j]) && pre[j].path@ == q;
            assert(es[j] == pre[j]);
            assert(written_path(es, q));
        }
        lemma_rescan_stable(t, pre, now);
        lemma_scanned_valid(t, pre, now);
        let prev = scanned(t, pre, now);
        let e = es.last();
        if is_written(e) {
            let p = e.path@;
            assert(es[es.len() - 1] == e);
            assert(written_path(es, p));
            let i0 = choose|i: int| 0 <= i < t.rows.len() && #[trigger] t.rows[i].path == p;
            assert(prev.rows[i0].path == p);
            assert(prev.has_path(p));
        }
        let s = scanned(t, es, now);
        assert forall|i: int| 0 <= i < t.rows.len() && !written_path(es, t.rows[i].path) implies (
        #[trigger] s.rows[i]) == t.rows[i] by {
            if written_path(pre, t.rows[i].path) {
                let j = choose|j: int|
                    0 <= j < pre.len() && is_written(#[trigger] pre[j]) && pre[j].path@ == t.rows[i].path;
                assert(es[j] == pre[j]);
            }
            if is_written(e) {
                assert(es[es.len() - 1] == e);
                assert(e.path@ != t.rows[i].path);
            }
        }
    }
}

/// Scanning the same files twice, unchanged, the second time later than the
/// first, leaves the row count and every row's id and path as the first scan
/// left them, and every row's columns too; every row that the scans write
/// carries the first scan's time after it and the later time of the second
/// after that.
pub proof fn rescan_keeps_ids(t: TableView, es: Seq<ScanEntry>, first: int, second: int)
    requires
        t.valid(),
        first < second,
    ensures
        ({
            let t1 = scanned(t, es, first);
            let t2 = scanned(t1, es, second);
            &&& t2.rows.len() == t1.rows.len()
            &&& forall|i: int| 0 <= i < t1.rows.len() ==> {
                &&& (#[trigger] t2.rows[i]).id == t1.rows[i].id
                &&& t2.rows[i].path == t1.rows[i].path
                &&& t2.rows[i].values == t1.rows[i].values
                &&& written_path(es, t1.rows[i].path) ==> t1.rows[i].ts == first && t2.rows[i].ts
                    == second && t2.rows[i].ts > t1.rows[i].ts
            }
        }),
{
    let t1 = scanned(t, es, first);
    lemma_scanned_valid(t, es, first);
    lemma_scanned_paths(t, es, first);
    lemma_scanned_stamps(t, es, first);
    lemma_rescan_stable(t1, es, second);
    lemma_scanned_stamps(t1, es, second);
}

/// However often the table is scanned, no two rows share a path.
pub proof fn scan_keeps_paths_unique(t: TableView, es: Seq<ScanEntry>, now: int)
    requires
        t.valid(),
    ensures
        forall|i: int, j: int|
            0 <= i < j < scanned(t, es, now).rows.len() ==> (#[trigger] scanned(t, es, now).rows[i]).path
                != (#[trigger] scanned(t, es, now).rows[j]).path,
{
    lemma_scanned_valid(t, es, now);
}

proof fn lemma_counts_add_up(es: Seq<ScanEntry>)
    ensures
        count_candidates(es) == count_written(es) + count_failed(es),
    decreases es.len(),
{
    if es.len() > 0 {
        lemma_counts_add_up(es.drop_last());
    }
}

proof fn lemma_fresh_scan_len(t: TableView, es: Seq<ScanEntry>, now: int)
    requires
        t.valid(),
        t.rows.len() == 0,
        distinct_paths(es),
    ensures
        scanned(t, es, now).rows.len() == count_written(es),
    decreases es.len(),
{
    if es.len() > 0 {
        let pre = es.drop_last();
        assert(distinct_paths(pre)) by {
            assert forall|i: int, j: int| 0 <= i < j < pre.len() implies #[trigger] pre[i].path@
                != #[trigger] pre[j].path@ by {
                assert(es[i].path@ != es[j].path@);
            }
        }
        lemma_fresh_scan_len(t, pre, now);
        lemma_scanned_paths(t, pre, now);
        let prev = scanned(t, pre, now);
        let e = es.last();
        if is_written(e) {
            let p = e.path@;
            if prev.has_path(p) {
                assert(!t.has_path(p));
                assert(written_path(pre, p));
                let j = choose|j: int| 0 <= j < pre.len() && is_written(#[trigger] pre[j]) && pre[j].path@ == p;
                assert(es[j].path@ != es[es.len() - 1].path@);
            }
        }
    }
}

/// Into an empty table, scanning distinct files of which some are audio and
/// some of those fail extraction leaves exactly one row per audio file that
/// did not fail.
pub proof fn failed_files_leave_no_row(t: TableView, es: Seq<ScanEntry>, now: int)
    requires
        t.valid(),
        t.rows.len() == 0,
        distinct_paths(es),
    ensures
        scanned(t, es, now).rows.len() == count_candidates(es) - count_failed(es),
{
    lemma_fresh_scan_len(t, es, now);
    lemma_counts_add_up(es);
}

/// Into an empty table, a scan writes rows only for audio files, and one for
/// each audio file whose metadata was extracted.
pub proof fn only_audio_files_get_rows(t: TableView, es: Seq<ScanEntry>, now: int)
    requires
        t.valid(),
        t.rows.len() == 0,
    ensures
        forall|i: int|
            0 <= i < scanned(t, es, now).rows.len() ==> audio_path(
                (#[trigger] scanned(t, es, now).rows[i]).path,
            ),
        forall|j: int|
            0 <= j < es.len() && is_written(#[trigger] es[j]) ==> scanned(t, es, now).has_path(
                es[j].path@,
            ),
{
    lemma_scanned_paths(t, es, now);
    let s = scanned(t, es, now);
    assert forall|i: int| 0 <= i < s.rows.len() implies audio_path((#[trigger] s.rows[i]).path) by {
        assert(s.has_path(s.rows[i].path));
        let j = choose|j: int|
            0 <= j < es.len() && is_written(#[trigger] es[j]) && es[j].path@ == s.rows[i].path;
    }
    assert forall|j: int| 0 <= j < es.len() && is_written(#[trigger] es[j]) implies s.has_path(
        es[j].path@,
    ) by {
        assert(written_path(es, es[j].path@));
    }
}

/// Upserting a path that already has a row rewrites that row's columns in
/// place and stamps it with the time of the write: the row count, its id and
/// path, and every other row stay as they were.
pub proof fn upsert_of_indexed_path_updates_in_place(
    t: TableView,
    p: Seq<char>,
    values: TagValues,
    now: int,
)
    requires
        t.valid(),
        t.has_path(p),
    ensures
        ({
            let u = t.upserted(p, values, now);
            let k = t.index_of(p);
            &&& u.rows.len() == t.rows.len()
            &&& u.rows[k].id == t.rows[k].id
            &&& u.rows[k].path == p
            &&& u.rows[k].values == values
            &&& u.rows[k].ts == now
            &&& now > t.rows[k].ts ==> u.rows[k].ts > t.rows[k].ts
            &&& u.next_id == t.next_id
            &&& forall|i: int| 0 <= i < t.rows.len() && i != k ==> #[trigger] u.rows[i] == t.rows[i]
        }),
{
}

/// Clearing leaves no row, whatever the table held.
pub proof fn clear_leaves_no_rows(t: TableView)
    ensures
        t.cleared().rows.len() == 0,
        t.cleared().next_id == t.next_id,
{
}

} // verus!
