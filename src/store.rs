use vstd::prelude::*;
use crate::record::{copy_text, TagValues};
use crate::order::{lemma_path_less_total, lemma_path_less_transitive, path_before, path_less};
use crate::table::{has_room, lemma_upsert_valid, RowView, TableView};

verus! {

/// A failure of the table itself; it ends the whole operation.
#[derive(Debug, PartialEq, Eq, Structural)]
pub enum StoreError {
    /// An insert for a path that already has a row.
    DuplicatePath,
    /// An update that changed this many rows instead of exactly one.
    RowsAffected(u64),
}

/// One row of the tag table.
#[derive(Clone, Debug)]
pub struct TagRow {
    pub id: i64,
    pub path: String,
    pub values: TagValues,
    pub ts: u64,
}

impl TagRow {
    pub open spec fn view(&self) -> RowView {
        RowView { id: self.id as int, path: self.path@, values: self.values, ts: self.ts as int }
    }
}

fn copy_values(v: &TagValues) -> (r: TagValues)
    ensures
        r == *v,
{
    TagValues {
        title: copy_text(&v.title),
        artist: copy_text(&v.artist),
        composer: copy_text(&v.composer),
        album: copy_text(&v.album),
        genre: copy_text(&v.genre),
        year: copy_text(&v.year),
        comment: copy_text(&v.comment),
        description: copy_text(&v.description),
        duration: v.duration,
        bitrate: v.bitrate,
        num_chapters: v.num_chapters,
    }
}

fn copy_row(r: &TagRow) -> (c: TagRow)
    ensures
        c@ == r@,
{
    TagRow { id: r.id, path: r.path.clone(), values: copy_values(&r.values), ts: r.ts }
}

/// The tag table: one row per path, with ids assigned on insert.
pub struct TagTable {
    rows: Vec<TagRow>,
    next_id: i64,
}

impl TagTable {
    pub closed spec fn view(&self) -> TableView {
        TableView {
            rows: self.rows@.map_values(|r: TagRow| r@),
            next_id: self.next_id as int,
        }
    }

    /// An empty table whose first row will get id 1.
    pub fn new() -> (t: TagTable)
        ensures
            t@.valid(),
            t@.rows.len() == 0,
            t@.next_id == 1,
    {
        TagTable { rows: Vec::new(), next_id: 1 }
    }

    /// The number of rows.
    pub fn len(&self) -> (n: usize)
        ensures
            n == self@.rows.len(),
    {
        self.rows.len()
    }

    fn position(&self, path: &str) -> (r: Option<usize>)
        requires
            self@.valid(),
        ensures
            match r {
                Some(k) => self@.has_path(path@) && k == self@.index_of(path@),
                None => !self@.has_path(path@),
            },
    {
        let target = String::from_str(path);
        let mut i: usize = 0;
        while i < self.rows.len()
            invariant
                i <= self.rows.len(),
                target@ == path@,
                self@.valid(),
                forall|j: int| 0 <= j < i ==> #[trigger] self@.rows[j].path != path@,
            decreases self.rows.len() - i,
        {
            if self.rows[i].path == target {
                assert(self@.rows[i as int].path == path@);
                assert(self@.has_path(path@));
                let ghost k = self@.index_of(path@);
                assert(k == i) by {
                    if k != i {
                        if k < i {
                            assert(self@.rows[k].path != self@.rows[i as int].path);
                        } else {
                            assert(self@.rows[i as int].path != self@.rows[k].path);
                        }
                    }
                }
                return Some(i);
            }
            i += 1;
        }
        None
    }

    fn position_of_id(&self, id: i64) -> (r: Option<usize>)
        requires
            self@.valid(),
        ensures
            match r {
                Some(k) => self@.has_id(id as int) && k == self@.index_of_id(id as int),
                None => !self@.has_id(id as int),
            },
    {
        let mut i: usize = 0;
        while i < self.rows.len()
            invariant
                i <= self.rows.len(),
                forall|j: int| 0 <= j < i ==> #[trigger] self@.rows[j].id != id,
                self@.valid(),
            decreases self.rows.len() - i,
        {
            if self.rows[i].id == id {
                assert(self@.rows[i as int].id == id);
                assert(self@.has_id(id as int));
                let ghost k = self@.index_of_id(id as int);
                assert(k == i) by {
                    if k != i {
                        if k < i {
                            assert(self@.rows[k].id != self@.rows[i as int].id);
                        } else {
                            assert(self@.rows[i as int].id != self@.rows[k].id);
                        }
                    }
                }
                return Some(i);
            }
            i += 1;
        }
        None
    }

    /// The id of the row whose path is exactly `path`, if there is one.
    pub fn find_id_by_path(&self, path: &str) -> (r: Option<i64>)
        requires
            self@.valid(),
        ensures
            match r {
                Some(id) => self@.has_path(path@) && self@.rows[self@.index_of(path@)].id == id,
                None => !self@.has_path(path@),
            },
    {
        match self.position(path) {
            Some(k) => Some(self.rows[k].id),
            None => None,
        }
    }

    /// Adds a row for `path` with the next id, which is returned. A path that
    /// already has a row is refused, as the table's uniqueness constraint does.
    pub fn insert(&mut self, path: String, values: TagValues, now: u64) -> (r: Result<i64, StoreError>)
        requires
            old(self)@.valid(),
            has_room(old(self)@),
        ensures
            final(self)@.valid(),
            old(self)@.has_path(path@) ==> r == Err::<i64, StoreError>(StoreError::DuplicatePath)
                && final(self)@ == old(self)@,
            !old(self)@.has_path(path@) ==> r == Ok::<i64, StoreError>(old(self)@.next_id as i64)
                && final(self)@ == old(self)@.inserted(path@, values, now as int),
    {
        if self.position(path.as_str()).is_some() {
            return Err(StoreError::DuplicatePath);
        }
        let ghost before = self@;
        let id = self.next_id;
        self.rows.push(TagRow { id, path, values, ts: now });
        self.next_id = id + 1;
        proof {
            assert(self@.rows =~= before.inserted(self.rows@.last().path@, self.rows@.last().values, now as int).rows);
            lemma_upsert_valid(before, self.rows@.last().path@, self.rows@.last().values, now as int);
        }
        Ok(id)
    }

    /// Rewrites every metadata column of row `id` and sets its timestamp to `now`.
    /// Anything but exactly one row changed is an error.
    pub fn update(&mut self, id: i64, values: TagValues, now: u64) -> (r: Result<(), StoreError>)
        requires
            old(self)@.valid(),
            has_room(old(self)@),
        ensures
            final(self)@.valid(),
            !old(self)@.has_id(id as int) ==> r == Err::<(), StoreError>(StoreError::RowsAffected(0))
                && final(self)@ == old(self)@,
            old(self)@.has_id(id as int) ==> r is Ok && final(self)@ == old(self)@.updated(
                old(self)@.index_of_id(id as int),
                values,
                now as int,
            ),
    {
        match self.position_of_id(id) {
            None => Err(StoreError::RowsAffected(0)),
            Some(k) => {
                self.set_row(k, values, now);
                Ok(())
            },
        }
    }

    fn set_row(&mut self, k: usize, values: TagValues, now: u64)
        requires
            old(self)@.valid(),
            has_room(old(self)@),
            k < old(self)@.rows.len(),
        ensures
            final(self)@.valid(),
            final(self)@ == old(self)@.updated(k as int, values, now as int),
    {
        let ghost before = self@;
        let id = self.rows[k].id;
        let path = self.rows[k].path.clone();
        self.rows.set(k, TagRow { id, path, values, ts: now });
        proof {
            let after = before.updated(k as int, self.rows@[k as int].values, now as int);
            assert(self@.rows =~= after.rows);
            assert(before.has_path(before.rows[k as int].path));
            let p = before.rows[k as int].path;
            let j = before.index_of(p);
            assert(j == k) by {
                if j != k {
                    if j < k {
                        assert(before.rows[j].path != before.rows[k as int].path);
                    } else {
                        assert(before.rows[k as int].path != before.rows[j].path);
                    }
                }
            }
            lemma_upsert_valid(before, p, self.rows@[k as int].values, now as int);
        }
    }

    /// Removes every row and returns how many there were.
    pub fn delete_all(&mut self) -> (n: u64)
        ensures
            n == old(self)@.rows.len(),
            final(self)@ == old(self)@.cleared(),
            old(self)@.valid() ==> final(self)@.valid(),
    {
        let n = self.rows.len() as u64;
        self.rows = Vec::new();
        proof {
            assert(self@.rows =~= Seq::<RowView>::empty());
        }
        n
    }

    /// Every row, ordered by path.
    pub fn list_all(&self) -> (r: Vec<TagRow>)
        requires
            self@.valid(),
        ensures
            r@.len() == self@.rows.len(),
            sorted_by_path(r@),
            forall|k: int| 0 <= k < self@.rows.len() ==> has_row(r@, #[trigger] self@.rows[k]),
            forall|i: int|
                0 <= i < r@.len() ==> exists|k: int|
                    0 <= k < self@.rows.len() && (#[trigger] r@[i])@ == self@.rows[k],
    {
        let mut out: Vec<TagRow> = Vec::new();
        let mut i: usize = 0;
        while i < self.rows.len()
            invariant
                self@.valid(),
                i <= self.rows.len(),
                out@.len() == i,
                sorted_by_path(out@),
                forall|k: int| 0 <= k < i ==> has_row(out@, #[trigger] self@.rows[k]),
                forall|j: int|
                    0 <= j < out@.len() ==> exists|k: int| 0 <= k < i && (#[trigger] out@[j])@ == self@.rows[k],
            decreases self.rows.len() - i,
        {
            let row = copy_row(&self.rows[i]);
            assert(row@ == self@.rows[i as int]);
            let mut p: usize = 0;
            loop
                invariant
                    p <= out@.len(),
                    forall|q: int| 0 <= q < p ==> path_less((#[trigger] out@[q]).path@, row.path@),
                ensures
                    p <= out@.len(),
                    forall|q: int| 0 <= q < p ==> path_less((#[trigger] out@[q]).path@, row.path@),
                    p < out@.len() ==> !path_less(out@[p as int].path@, row.path@),
                decreases out@.len() - p,
            {
                if p >= out.len() {
                    break;
                }
                if !path_before(out[p].path.as_str(), row.path.as_str()) {
                    break;
                }
                p += 1;
            }
            proof {
                assert forall|q: int| p <= q < out@.len() implies path_less(
                    row.path@,
                    (#[trigger] out@[q]).path@,
                ) by {
                    let k = choose|k: int| 0 <= k < i && out@[p as int]@ == self@.rows[k];
                    assert(self@.rows[k].path != self@.rows[i as int].path);
                    lemma_path_less_total(row.path@, out@[p as int].path@);
                    if q > p {
                        lemma_path_less_transitive(row.path@, out@[p as int].path@, out@[q].path@);
                    }
                }
                out@.insert_ensures(p as int, row);
            }
            let ghost before = out@;
            out.insert(p, row);
            proof {
                assert forall|a: int, b: int| 0 <= a < b < out@.len() implies path_less(
                    (#[trigger] out@[a]).path@,
                    (#[trigger] out@[b]).path@,
                ) by {
                    if b < p {
                    } else if b == p {
                    } else if a < p {
                        lemma_path_less_transitive(before[a].path@, row.path@, before[b - 1].path@);
                    } else if a == p {
                    } else {
                        assert(path_less(before[a - 1].path@, before[b - 1].path@));
                    }
                }
                assert forall|k: int| 0 <= k < i + 1 implies has_row(out@, #[trigger] self@.rows[k]) by {
                    if k == i {
                        assert(out@[p as int]@ == self@.rows[k]);
                    } else {
                        let j = choose|j: int| 0 <= j < before.len() && (#[trigger] before[j])@ == self@.rows[k];
                        if j < p {
                            assert(out@[j]@ == self@.rows[k]);
                        } else {
                            assert(out@[j + 1]@ == self@.rows[k]);
                        }
                    }
                }
                assert forall|j: int| 0 <= j < out@.len() implies exists|k: int|
                    0 <= k < i + 1 && (#[trigger] out@[j])@ == self@.rows[k] by {
                    if j < p {
                        assert(before[j] == out@[j]);
                    } else if j == p {
                        assert(out@[j]@ == self@.rows[i as int]);
                    } else {
                        assert(before[j - 1] == out@[j]);
                    }
                }
            }
            i += 1;
        }
        out
    }
}

/// Some row of `rows` is `x`.
pub open spec fn has_row(rows: Seq<TagRow>, x: RowView) -> bool {
    exists|i: int| 0 <= i < rows.len() && (#[trigger] rows[i])@ == x
}

/// Rows in strictly increasing order of path.
pub open spec fn sorted_by_path(rows: Seq<TagRow>) -> bool {
    forall|i: int, j: int|
        0 <= i < j < rows.len() ==> path_less((#[trigger] rows[i]).path@, (#[trigger] rows[j]).path@)
}

} // verus!
