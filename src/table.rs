use vstd::prelude::*;
use crate::record::TagValues;

verus! {

/// A row as the table's model sees it.
pub struct RowView {
    pub id: int,
    pub path: Seq<char>,
    pub values: TagValues,
    pub ts: int,
}

/// The state of the tag table: its rows in storage order and the id that the
/// next insert receives.
pub struct TableView {
    pub rows: Seq<RowView>,
    pub next_id: int,
}

impl TableView {
    /// Paths are unique, and ids are unique and below the next one.
    pub open spec fn valid(self) -> bool {
        &&& forall|i: int, j: int|
            0 <= i < j < self.rows.len() ==> #[trigger] self.rows[i].path != #[trigger] self.rows[j].path
        &&& forall|i: int, j: int|
            0 <= i < j < self.rows.len() ==> #[trigger] self.rows[i].id != #[trigger] self.rows[j].id
        &&& forall|i: int|
            0 <= i < self.rows.len() ==> 1 <= #[trigger] self.rows[i].id < self.next_id
        &&& 1 <= self.next_id
    }

    pub open spec fn has_path(self, p: Seq<char>) -> bool {
        exists|i: int| 0 <= i < self.rows.len() && #[trigger] self.rows[i].path == p
    }

    pub open spec fn index_of(self, p: Seq<char>) -> int {
        choose|i: int| 0 <= i < self.rows.len() && #[trigger] self.rows[i].path == p
    }

    pub open spec fn has_id(self, id: int) -> bool {
        exists|i: int| 0 <= i < self.rows.len() && #[trigger] self.rows[i].id == id
    }

    pub open spec fn index_of_id(self, id: int) -> int {
        choose|i: int| 0 <= i < self.rows.len() && #[trigger] self.rows[i].id == id
    }

    /// Row `k` rewritten with new values and timestamp `now`; id and path kept.
    pub open spec fn updated(self, k: int, values: TagValues, now: int) -> TableView {
        TableView {
            rows: self.rows.update(
                k,
                RowView { id: self.rows[k].id, path: self.rows[k].path, values, ts: now },
            ),
            next_id: self.next_id,
        }
    }

    /// A new row for `p` with the next id and timestamp `now`.
    pub open spec fn inserted(self, p: Seq<char>, values: TagValues, now: int) -> TableView {
        TableView {
            rows: self.rows.push(RowView { id: self.next_id, path: p, values, ts: now }),
            next_id: self.next_id + 1,
        }
    }

    /// Find the row of `p` and rewrite it, or insert one if there is none.
    pub open spec fn upserted(self, p: Seq<char>, values: TagValues, now: int) -> TableView {
        if self.has_path(p) {
            self.updated(self.index_of(p), values, now)
        } else {
            self.inserted(p, values, now)
        }
    }

    /// Every row removed; ids are not handed out again.
    pub open spec fn cleared(self) -> TableView {
        TableView { rows: Seq::empty(), next_id: self.next_id }
    }

    /// The id of the row that holds `p` after an upsert of `p`.
    pub open spec fn upserted_id(self, p: Seq<char>) -> int {
        if self.has_path(p) {
            self.rows[self.index_of(p)].id
        } else {
            self.next_id
        }
    }
}

/// Whether an insert can still be numbered without overflow.
pub open spec fn has_room(t: TableView) -> bool {
    t.next_id < i64::MAX
}

/// Each upsert keeps the table valid.
pub proof fn lemma_upsert_valid(t: TableView, p: Seq<char>, values: TagValues, now: int)
    requires
        t.valid(),
    ensures
        t.upserted(p, values, now).valid(),
        t.upserted(p, values, now).next_id >= t.next_id,
{
    let u = t.upserted(p, values, now);
    if t.has_path(p) {
        let k = t.index_of(p);
        assert forall|i: int, j: int| 0 <= i < j < u.rows.len() implies #[trigger] u.rows[i].path
            != #[trigger] u.rows[j].path by {
            assert(t.rows[i].path != t.rows[j].path);
        }
        assert forall|i: int, j: int| 0 <= i < j < u.rows.len() implies #[trigger] u.rows[i].id
            != #[trigger] u.rows[j].id by {
            assert(t.rows[i].id != t.rows[j].id);
        }
        assert forall|i: int| 0 <= i < u.rows.len() implies 1 <= #[trigger] u.rows[i].id
            < u.next_id by {
            assert(1 <= t.rows[i].id < t.next_id);
        }
    } else {
        assert forall|i: int, j: int| 0 <= i < j < u.rows.len() implies #[trigger] u.rows[i].path
            != #[trigger] u.rows[j].path by {
            if j < t.rows.len() {
                assert(t.rows[i].path != t.rows[j].path);
            } else {
                assert(t.rows[i].path != p);
            }
        }
        assert forall|i: int, j: int| 0 <= i < j < u.rows.len() implies #[trigger] u.rows[i].id
            != #[trigger] u.rows[j].id by {
            if j < t.rows.len() {
                assert(t.rows[i].id != t.rows[j].id);
            } else {
                assert(1 <= t.rows[i].id < t.next_id);
            }
        }
        assert forall|i: int| 0 <= i < u.rows.len() implies 1 <= #[trigger] u.rows[i].id
            < u.next_id by {
            if i < t.rows.len() {
                assert(1 <= t.rows[i].id < t.next_id);
            }
        }
    }
}

} // verus!
