//! The cursor that walks the storages matched by a query, row by row.
//!
//! A storage (a table when the query is dense, an archetype otherwise) is
//! described by its rows: for each of its entities, the entity and its row
//! in the table that holds its components. The cursor walks the rows of the
//! matched storages in order and hands out those the query keeps: the caller
//! gives the query's verdict on each row (its filter accepts the row and its
//! data yields an item for it).
use crate::entity::Entity;
use crate::query_state::{copy_ids, QueryState};
use vstd::prelude::*;

verus! {

/// The rows of a storage: for each entity, the entity and its table row.
pub type StorageRows = Vec<(Entity, u32)>;

/// The rows of the storages `ids`, in order, one storage after the other.
pub open spec fn rows_of(storages: Seq<Seq<(Entity, u32)>>, ids: Seq<usize>) -> Seq<(Entity, u32)>
    decreases ids.len(),
{
    if ids.len() == 0 {
        Seq::empty()
    } else {
        rows_of(storages, ids.drop_last()) + storages[ids.last() as int]
    }
}

/// The rows of a list of storages, as sequences.
pub open spec fn storage_views(storages: Seq<StorageRows>) -> Seq<Seq<(Entity, u32)>> {
    Seq::new(storages.len(), |i: int| storages[i]@)
}

/// The storages are well formed for `ids`: every id names a storage, and no
/// storage has more than `u32::MAX` rows.
pub open spec fn storages_wf(storages: Seq<Seq<(Entity, u32)>>, ids: Seq<usize>) -> bool {
    &&& forall|i: int| 0 <= i < ids.len() ==> #[trigger] ids[i] < storages.len()
    &&& forall|s: int| 0 <= s < storages.len() ==> (#[trigger] storages[s]).len() <= u32::MAX
}

/// The first position from `from` on whose verdict in `keep` is true, if
/// any.
pub open spec fn first_kept(keep: Seq<bool>, from: int) -> Option<int>
    decreases keep.len() - from,
{
    if from < 0 || from >= keep.len() {
        None
    } else if keep[from] {
        Some(from)
    } else {
        first_kept(keep, from + 1)
    }
}

/// The abstract state of a cursor.
pub ghost struct CursorView {
    /// The storages to walk, in order.
    pub ids: Seq<usize>,
    /// Whether the storages are tables (otherwise archetypes).
    pub is_dense: bool,
    /// How many rows have been handed out.
    pub position: nat,
}

/// Walks the rows of the storages matched by a query.
pub struct QueryIterationCursor {
    is_dense: bool,
    storage_ids: Vec<usize>,
    /// Index in `storage_ids` of the next storage to open.
    next_storage: usize,
    /// The storage whose rows are being handed out.
    current: usize,
    current_len: u32,
    current_row: u32,
    /// How many rows have been handed out or skipped.
    position: usize,
}

impl QueryIterationCursor {
    /// The cursor's view: its storages and how many rows it handed out.
    pub closed spec fn view_in(&self, storages: Seq<Seq<(Entity, u32)>>) -> CursorView {
        CursorView {
            ids: self.storage_ids@,
            is_dense: self.is_dense,
            position: (rows_of(storages, self.storage_ids@.take(self.next_storage as int)).len() - (
            self.current_len - self.current_row)) as nat,
        }
    }

    /// The cursor is consistent with `storages` (see `wf_core`), and it has
    /// handed out no row at all while no row of its current storage is out.
    pub closed spec fn wf_in(&self, storages: Seq<Seq<(Entity, u32)>>) -> bool {
        &&& self.wf_core(storages)
        &&& self.current_row == 0 ==> self.view_in(storages).position == 0
    }

    /// The storage being walked is the last non-empty one opened, and its
    /// rows end the rows opened so far.
    closed spec fn wf_core(&self, storages: Seq<Seq<(Entity, u32)>>) -> bool {
        let opened = rows_of(storages, self.storage_ids@.take(self.next_storage as int));
        &&& storages_wf(storages, self.storage_ids@)
        &&& self.next_storage <= self.storage_ids@.len()
        &&& self.current_row <= self.current_len
        &&& self.current_len <= opened.len()
        &&& self.position == opened.len() - (self.current_len - self.current_row)
        &&& self.current_len > 0 ==> self.current < storages.len() && storages[self.current as int].len()
            == self.current_len && opened.subrange(
            opened.len() - self.current_len,
            opened.len() as int,
        ) == storages[self.current as int]
    }

    /// A cursor over the storages matched by `query_state`, before its first
    /// row.
    pub fn init(query_state: &QueryState) -> (r: Self)
        ensures
            r.storage_ids_spec() == query_state@.storage_ids,
            r.is_dense_spec() == query_state@.is_dense,
            forall|storages: Seq<Seq<(Entity, u32)>>|
                storages_wf(storages, query_state@.storage_ids) ==> #[trigger] r.wf_in(storages)
                    && r.view_in(storages).position == 0,
    {
        let ids = query_state.matched_storage_ids();
        let mut storage_ids: Vec<usize> = Vec::new();
        let mut i: usize = 0;
        while i < ids.len()
            invariant
                i <= ids@.len(),
                storage_ids@ == ids@.take(i as int),
            decreases ids@.len() - i,
        {
            storage_ids.push(ids[i]);
            i = i + 1;
            assert(storage_ids@ =~= ids@.take(i as int));
        }
        assert(storage_ids@ =~= ids@);
        let r = QueryIterationCursor {
            is_dense: query_state.is_dense(),
            storage_ids,
            next_storage: 0,
            current: 0,
            current_len: 0,
            current_row: 0,
            position: 0,
        };
        assert forall|storages: Seq<Seq<(Entity, u32)>>|
            storages_wf(storages, query_state@.storage_ids) implies #[trigger] r.wf_in(storages)
                && r.view_in(storages).position == 0 by {
            assert(r.storage_ids@.take(0) =~= Seq::<usize>::empty());
        }
        r
    }

    /// A cursor with no storage to walk.
    pub fn init_empty(is_dense: bool) -> (r: Self)
        ensures
            r.storage_ids_spec() == Seq::<usize>::empty(),
            r.is_dense_spec() == is_dense,
            forall|storages: Seq<Seq<(Entity, u32)>>| #[trigger] r.wf_in(storages) && r.view_in(storages).position == 0
                || !storages_wf(storages, Seq::<usize>::empty()),
    {
        let r = QueryIterationCursor {
            is_dense,
            storage_ids: Vec::new(),
            next_storage: 0,
            current: 0,
            current_len: 0,
            current_row: 0,
            position: 0,
        };
        assert(r.storage_ids@ =~= Seq::<usize>::empty());
        assert forall|storages: Seq<Seq<(Entity, u32)>>| #[trigger] r.wf_in(storages) && r.view_in(
            storages,
        ).position == 0 || !storages_wf(storages, Seq::<usize>::empty()) by {
            assert(r.storage_ids@.take(0) =~= Seq::<usize>::empty());
        }
        r
    }

    /// The storages the cursor walks.
    pub closed spec fn storage_ids_spec(&self) -> Seq<usize> {
        self.storage_ids@
    }

    /// Whether the storages are tables.
    pub closed spec fn is_dense_spec(&self) -> bool {
        self.is_dense
    }

    /// Hands out the next row of the matched storages that the query keeps,
    /// skipping empty storages and the rows it rejects: the tables when the
    /// cursor is dense, the archetypes otherwise. `keep` holds the query's
    /// verdict on each row, in the order the cursor walks them (the filter
    /// accepts the row and the data yields an item for it). `None` once every
    /// row has been walked.
    pub fn next(&mut self, tables: &Vec<StorageRows>, archetypes: &Vec<StorageRows>, keep: &Vec<bool>) -> (r: Option<(Entity, u32)>)
        requires
            old(self).wf_in(
                storage_views(
                    if old(self).is_dense_spec() {
                        tables@
                    } else {
                        archetypes@
                    },
                ),
            ),
            keep@.len() == rows_of(
                storage_views(
                    if old(self).is_dense_spec() {
                        tables@
                    } else {
                        archetypes@
                    },
                ),
                old(self).storage_ids_spec(),
            ).len(),
        ensures
            ({
                let storages = storage_views(
                    if old(self).is_dense_spec() {
                        tables@
                    } else {
                        archetypes@
                    },
                );
                let all = rows_of(storages, old(self).storage_ids_spec());
                let pos = old(self).view_in(storages).position;
                &&& final(self).wf_in(storages)
                &&& final(self).storage_ids_spec() == old(self).storage_ids_spec()
                &&& final(self).is_dense_spec() == old(self).is_dense_spec()
                &&& match first_kept(keep@, pos as int) {
                    Some(j) => r == Some(all[j]) && final(self).view_in(storages).position == j + 1,
                    None => r is None && final(self).view_in(storages).position == all.len(),
                }
            }),
    {
        let storages = if self.is_dense {
            tables
        } else {
            archetypes
        };
        let ghost sv = storage_views(storages@);
        let ghost ids = self.storage_ids@;
        let ghost pos0 = self.view_in(sv).position as int;
        let ghost all = rows_of(sv, ids);
        proof {
            lemma_rows_prefix(sv, ids, self.next_storage as int);
        }
        loop
            invariant
                self.wf_core(sv),
                self.current_row == 0 && self.current_len == 0 ==> self.view_in(sv).position == 0,
                self.storage_ids@ == ids,
                self.is_dense == old(self).is_dense,
                sv == storage_views(storages@),
                sv == storage_views(
                    if old(self).is_dense_spec() {
                        tables@
                    } else {
                        archetypes@
                    },
                ),
                all == rows_of(sv, ids),
                keep@.len() == all.len(),
                ids == old(self).storage_ids_spec(),
                pos0 == old(self).view_in(sv).position,
                pos0 <= self.view_in(sv).position <= all.len(),
                first_kept(keep@, pos0) == first_kept(keep@, self.view_in(sv).position as int),
                rows_of(sv, ids).len() >= rows_of(sv, ids.take(self.next_storage as int)).len(),
                rows_of(sv, ids.take(self.next_storage as int)) == all.subrange(
                    0,
                    rows_of(sv, ids.take(self.next_storage as int)).len() as int,
                ),
            decreases all.len() - self.view_in(sv).position,
        {
            // we are on the beginning of the query, or finished processing a
            // storage, so skip to the next non-empty one
            let ghost at = self.view_in(sv).position;
            while self.current_row == self.current_len && self.next_storage < self.storage_ids.len()
                invariant
                    self.wf_core(sv),
                    self.current_row == 0 && self.current_len == 0 ==> self.view_in(sv).position == 0,
                    self.storage_ids@ == ids,
                    self.is_dense == old(self).is_dense,
                    sv == storage_views(storages@),
                    sv == storage_views(
                        if old(self).is_dense_spec() {
                            tables@
                        } else {
                            archetypes@
                        },
                    ),
                    ids == old(self).storage_ids_spec(),
                    pos0 == old(self).view_in(sv).position,
                    all == rows_of(sv, ids),
                    self.view_in(sv).position == at,
                    keep@.len() == all.len(),
                    pos0 <= at <= all.len(),
                    first_kept(keep@, pos0) == first_kept(keep@, at as int),
                    rows_of(sv, ids).len() >= rows_of(sv, ids.take(self.next_storage as int)).len(),
                    rows_of(sv, ids.take(self.next_storage as int)) == rows_of(sv, ids).subrange(
                        0,
                        rows_of(sv, ids.take(self.next_storage as int)).len() as int,
                    ),
                decreases self.storage_ids@.len() - self.next_storage,
            {
                let id = self.storage_ids[self.next_storage];
                let ghost before = rows_of(sv, ids.take(self.next_storage as int));
                let ghost p = self.view_in(sv).position;
                proof {
                    assert(ids.take(self.next_storage + 1).drop_last() =~= ids.take(self.next_storage as int));
                    assert(ids.take(self.next_storage + 1).last() == id);
                    assert(id < sv.len());
                    assert(sv[id as int] == storages@[id as int]@);
                }
                self.next_storage = self.next_storage + 1;
                let len = storages[id].len();
                proof {
                    lemma_rows_prefix(sv, ids, self.next_storage as int);
                    assert(sv[id as int].len() <= u32::MAX);
                }
                if len > 0 {
                    self.current = id;
                    self.current_len = len as u32;
                    self.current_row = 0;
                    proof {
                        let opened = rows_of(sv, ids.take(self.next_storage as int));
                        assert(opened == before + sv[id as int]);
                        assert(opened.subrange(opened.len() - self.current_len, opened.len() as int) =~= sv[id as int]);
                    }
                } else {
                    proof {
                        assert(sv[id as int] =~= Seq::<(Entity, u32)>::empty());
                        assert(rows_of(sv, ids.take(self.next_storage as int)) =~= before);
                    }
                }
                assert(self.view_in(sv).position == p);
            }
            if self.current_row == self.current_len {
                proof {
                    assert(ids.take(self.next_storage as int) =~= ids);
                    assert(self.view_in(sv).position == all.len());
                    assert(first_kept(keep@, all.len() as int) is None);
                    assert(self.wf_in(sv));
                }
                return None;
            }
            let ghost opened = rows_of(sv, ids.take(self.next_storage as int));
            let ghost p = self.view_in(sv).position as int;
            let row = storages[self.current][self.current_row as usize];
            proof {
                assert(storages@[self.current as int]@ == sv[self.current as int]);
                let start = opened.len() - self.current_len;
                assert(opened.subrange(start, opened.len() as int)[self.current_row as int] == opened[start
                    + self.current_row]);
                assert(opened[start + self.current_row] == rows_of(sv, ids)[start + self.current_row]);
                assert(p == start + self.current_row);
                assert(p < all.len());
            }
            assert(self.position == p);
            assert(self.position < keep.len());
            let kept = keep[self.position];
            self.current_row = self.current_row + 1;
            self.position = self.position + 1;
            if kept {
                return Some(row);
            }
            proof {
                assert(first_kept(keep@, p) == first_kept(keep@, p + 1));
            }
        }
    }

    /// Hands out again the row handed out by the last call of `next`, if any
    /// row has been handed out.
    pub fn peek_last(&self, tables: &Vec<StorageRows>, archetypes: &Vec<StorageRows>) -> (r: Option<(Entity, u32)>)
        requires
            self.wf_in(
                storage_views(
                    if self.is_dense_spec() {
                        tables@
                    } else {
                        archetypes@
                    },
                ),
            ),
        ensures
            ({
                let storages = storage_views(
                    if self.is_dense_spec() {
                        tables@
                    } else {
                        archetypes@
                    },
                );
                let pos = self.view_in(storages).position;
                &&& r is Some <==> pos > 0
                &&& r is Some ==> r == Some(rows_of(storages, self.storage_ids_spec())[pos - 1])
            }),
    {
        if self.current_row > 0 {
            let storages = if self.is_dense {
                tables
            } else {
                archetypes
            };
            let ghost sv = storage_views(storages@);
            let ghost ids = self.storage_ids@;
            let ghost opened = rows_of(sv, ids.take(self.next_storage as int));
            proof {
                lemma_rows_prefix(sv, ids, self.next_storage as int);
                assert(storages@[self.current as int]@ == sv[self.current as int]);
                let start = opened.len() - self.current_len;
                let k = self.current_row - 1;
                assert(opened.subrange(start, opened.len() as int)[k as int] == opened[start + k]);
                assert(opened[start + k] == rows_of(sv, ids)[start + k]);
            }
            let index = self.current_row - 1;
            Some(storages[self.current][index as usize])
        } else {
            None
        }
    }

    /// Creates a separate cursor at the same position: advancing one does
    /// not advance the other.
    pub fn reborrow(&self) -> (r: Self)
        ensures
            forall|storages: Seq<Seq<(Entity, u32)>>|
                #![trigger r.view_in(storages)]
                #![trigger r.wf_in(storages)]
                r.view_in(storages) == self.view_in(storages) && r.wf_in(storages) == self.wf_in(
                    storages,
                ),
            r.storage_ids_spec() == self.storage_ids_spec(),
            r.is_dense_spec() == self.is_dense_spec(),
    {
        QueryIterationCursor {
            is_dense: self.is_dense,
            storage_ids: copy_ids(&self.storage_ids),
            next_storage: self.next_storage,
            current: self.current,
            current_len: self.current_len,
            current_row: self.current_row,
            position: self.position,
        }
    }

    /// The bounds on the number of rows left: at most
    /// [`QueryIterationCursor::max_remaining`], and exactly that many when
    /// every term of the query is decided by the archetype alone
    /// (`is_archetypal`); otherwise the filter may reject any of them.
    pub fn size_hint(&self, tables: &Vec<StorageRows>, archetypes: &Vec<StorageRows>, is_archetypal: bool) -> (r: (usize, Option<usize>))
        requires
            self.wf_in(
                storage_views(
                    if self.is_dense_spec() {
                        tables@
                    } else {
                        archetypes@
                    },
                ),
            ),
            rows_of(
                storage_views(
                    if self.is_dense_spec() {
                        tables@
                    } else {
                        archetypes@
                    },
                ),
                self.storage_ids_spec(),
            ).len() <= u32::MAX,
        ensures
            ({
                let storages = storage_views(
                    if self.is_dense_spec() {
                        tables@
                    } else {
                        archetypes@
                    },
                );
                let max = rows_of(storages, self.storage_ids_spec()).len() - self.view_in(storages).position;
                &&& r.1 == Some(max as usize)
                &&& r.0 == if is_archetypal { max } else { 0 }
            }),
    {
        let max_size = self.max_remaining(tables, archetypes);
        let min_size = if is_archetypal { max_size } else { 0 };
        (min_size as usize, Some(max_size as usize))
    }

    /// How many rows this cursor will hand out at most: the rows of the
    /// storages not opened yet, and those left in the current one.
    pub fn max_remaining(&self, tables: &Vec<StorageRows>, archetypes: &Vec<StorageRows>) -> (r: u32)
        requires
            self.wf_in(
                storage_views(
                    if self.is_dense_spec() {
                        tables@
                    } else {
                        archetypes@
                    },
                ),
            ),
            rows_of(
                storage_views(
                    if self.is_dense_spec() {
                        tables@
                    } else {
                        archetypes@
                    },
                ),
                self.storage_ids_spec(),
            ).len() <= u32::MAX,
        ensures
            ({
                let storages = storage_views(
                    if self.is_dense_spec() {
                        tables@
                    } else {
                        archetypes@
                    },
                );
                r == rows_of(storages, self.storage_ids_spec()).len() - self.view_in(storages).position
            }),
    {
        let storages = if self.is_dense {
            tables
        } else {
            archetypes
        };
        let ghost sv = storage_views(storages@);
        let ghost ids = self.storage_ids@;
        let ghost base = rows_of(sv, ids.take(self.next_storage as int)).len();
        proof {
            lemma_rows_prefix(sv, ids, self.next_storage as int);
        }
        let mut remaining_matched: u32 = 0;
        let mut i = self.next_storage;
        while i < self.storage_ids.len()
            invariant
                self.next_storage <= i <= ids.len(),
                ids == self.storage_ids@,
                sv == storage_views(storages@),
                storages_wf(sv, ids),
                rows_of(sv, ids).len() <= u32::MAX,
                base == rows_of(sv, ids.take(self.next_storage as int)).len(),
                remaining_matched == rows_of(sv, ids.take(i as int)).len() - base,
            decreases ids.len() - i,
        {
            let id = self.storage_ids[i];
            proof {
                assert(ids.take(i + 1).drop_last() =~= ids.take(i as int));
                assert(sv[id as int] == storages@[id as int]@);
                lemma_rows_prefix(sv, ids, i + 1);
            }
            remaining_matched = remaining_matched + storages[id].len() as u32;
            i = i + 1;
        }
        proof {
            assert(ids.take(i as int) =~= ids);
        }
        remaining_matched + self.current_len - self.current_row
    }
}

/// The rows of the first `k` storages are a prefix of the rows of all of
/// them.
proof fn lemma_rows_prefix(storages: Seq<Seq<(Entity, u32)>>, ids: Seq<usize>, k: int)
    requires
        0 <= k <= ids.len(),
    ensures
        rows_of(storages, ids.take(k)).len() <= rows_of(storages, ids).len(),
        rows_of(storages, ids.take(k)) == rows_of(storages, ids).subrange(
            0,
            rows_of(storages, ids.take(k)).len() as int,
        ),
    decreases ids.len() - k,
{
    if k < ids.len() {
        lemma_rows_prefix(storages, ids, k + 1);
        let a = rows_of(storages, ids.take(k));
        let b = rows_of(storages, ids.take(k + 1));
        assert(ids.take(k + 1).drop_last() =~= ids.take(k));
        assert(b == a + storages[ids.take(k + 1).last() as int]);
        assert(a =~= b.subrange(0, a.len() as int));
        assert(a =~= rows_of(storages, ids).subrange(0, a.len() as int));
    } else {
        assert(ids.take(k) =~= ids);
        assert(rows_of(storages, ids).subrange(0, rows_of(storages, ids).len() as int) =~= rows_of(
            storages,
            ids,
        ));
    }
}

/// The rows of `rows` from `start` up to `end` (excluded) whose verdict in
/// `keep` is true, in order.
pub open spec fn kept_rows(rows: Seq<(Entity, u32)>, keep: Seq<bool>, start: int, end: int) -> Seq<(Entity, u32)>
    decreases end - start,
{
    if end <= start {
        Seq::empty()
    } else if keep[end - 1] {
        kept_rows(rows, keep, start, end - 1).push(rows[end - 1])
    } else {
        kept_rows(rows, keep, start, end - 1)
    }
}

/// The rows from `start` up to `end` (excluded) of one storage that a fold
/// over it visits: those whose verdict in `keep` is true (the query's filter
/// accepts the row and its data yields an item), in order.
pub fn fold_rows(rows: &Vec<(Entity, u32)>, start: u32, end: u32, keep: &Vec<bool>) -> (r: Vec<(Entity, u32)>)
    requires
        start <= end <= rows@.len(),
        keep@.len() == rows@.len(),
    ensures
        r@ == kept_rows(rows@, keep@, start as int, end as int),
{
    let mut r: Vec<(Entity, u32)> = Vec::new();
    let mut i: u32 = start;
    while i < end
        invariant
            start <= i <= end,
            end <= rows@.len(),
            keep@.len() == rows@.len(),
            r@ == kept_rows(rows@, keep@, start as int, i as int),
        decreases end - i,
    {
        if keep[i as usize] {
            r.push(rows[i as usize]);
        }
        i = i + 1;
    }
    r
}

/// The kept rows of a range split at any point inside it.
proof fn lemma_kept_rows_split(rows: Seq<(Entity, u32)>, keep: Seq<bool>, start: int, mid: int, end: int)
    requires
        start <= mid <= end,
    ensures
        kept_rows(rows, keep, start, end) == kept_rows(rows, keep, start, mid) + kept_rows(rows, keep, mid, end),
    decreases end - mid,
{
    if end == mid {
        assert(kept_rows(rows, keep, start, mid) + Seq::<(Entity, u32)>::empty() =~= kept_rows(rows, keep, start, mid));
    } else {
        lemma_kept_rows_split(rows, keep, start, mid, end - 1);
        if keep[end - 1] {
            assert(kept_rows(rows, keep, start, mid) + kept_rows(rows, keep, mid, end - 1).push(rows[end - 1])
                =~= (kept_rows(rows, keep, start, mid) + kept_rows(rows, keep, mid, end - 1)).push(rows[end - 1]));
        }
    }
}

/// A range with no kept row keeps nothing.
proof fn lemma_kept_rows_none(rows: Seq<(Entity, u32)>, keep: Seq<bool>, start: int, end: int)
    requires
        forall|i: int| start <= i < end ==> !#[trigger] keep[i],
    ensures
        kept_rows(rows, keep, start, end) == Seq::<(Entity, u32)>::empty(),
    decreases end - start,
{
    if end > start {
        lemma_kept_rows_none(rows, keep, start, end - 1);
    }
}

/// The first kept position from `from` is kept, and no position before it
/// from `from` on is; without one, no position from `from` on is kept.
proof fn lemma_first_kept(keep: Seq<bool>, from: int)
    requires
        0 <= from,
    ensures
        first_kept(keep, from) matches Some(j) ==> from <= j < keep.len() && keep[j] && forall|i: int|
            from <= i < j ==> !#[trigger] keep[i],
        first_kept(keep, from) is None ==> forall|i: int| from <= i < keep.len() ==> !#[trigger] keep[i],
    decreases keep.len() - from,
{
    if from < keep.len() && !keep[from] {
        lemma_first_kept(keep, from + 1);
    }
}

/// Walking the rows `all` with the verdicts `keep` from position `p`: the
/// next call of [`QueryIterationCursor::next`] hands out the first kept row,
/// and the kept rows still to come are that row followed by the kept rows
/// after it; when no row is kept any more, it hands out nothing, the cursor
/// stands at the end, and every later call hands out nothing again. So the
/// calls from a fresh cursor hand out every kept row once, in order, and
/// then only `None`.
pub proof fn lemma_cursor_walk(all: Seq<(Entity, u32)>, keep: Seq<bool>, p: int)
    requires
        keep.len() == all.len(),
        0 <= p <= all.len(),
    ensures
        match first_kept(keep, p) {
            Some(j) => p <= j < all.len() && kept_rows(all, keep, p, all.len() as int) == seq![all[j]]
                + kept_rows(all, keep, j + 1, all.len() as int),
            None => kept_rows(all, keep, p, all.len() as int) == Seq::<(Entity, u32)>::empty()
                && first_kept(keep, all.len() as int) is None,
        },
{
    lemma_first_kept(keep, p);
    let n = all.len() as int;
    match first_kept(keep, p) {
        Some(j) => {
            lemma_kept_rows_split(all, keep, p, j, n);
            lemma_kept_rows_split(all, keep, j, j + 1, n);
            lemma_kept_rows_none(all, keep, p, j);
            assert(kept_rows(all, keep, j, j) == Seq::<(Entity, u32)>::empty());
            assert(kept_rows(all, keep, j, j + 1) == seq![all[j]]) by {
                assert(Seq::<(Entity, u32)>::empty().push(all[j]) =~= seq![all[j]]);
            }
            assert(Seq::<(Entity, u32)>::empty() + (seq![all[j]] + kept_rows(all, keep, j + 1, n)) =~= seq![all[j]]
                + kept_rows(all, keep, j + 1, n));
        },
        None => {
            lemma_kept_rows_none(all, keep, p, n);
        },
    }
}

/// What `n` successive calls of [`QueryIterationCursor::next`] hand out when
/// the cursor stands at position `p` of the rows `all` with the verdicts
/// `keep`, and the position the cursor is left at: each call hands out the
/// first kept row from its position and moves past it, or hands out `None`
/// and moves to the end.
pub open spec fn walk(all: Seq<(Entity, u32)>, keep: Seq<bool>, p: int, n: nat) -> (Seq<Option<(Entity, u32)>>, int)
    decreases n,
{
    if n == 0 {
        (Seq::empty(), p)
    } else {
        let (item, q) = match first_kept(keep, p) {
            Some(j) => (Some(all[j]), j + 1),
            None => (None, all.len() as int),
        };
        let (rest, last) = walk(all, keep, q, (n - 1) as nat);
        (seq![item] + rest, last)
    }
}

/// One step of [`walk`] is one call of [`QueryIterationCursor::next`], as its
/// contract states it: the first kept row and the position past it, or
/// `None` and the end.
pub proof fn lemma_walk_one(all: Seq<(Entity, u32)>, keep: Seq<bool>, p: int)
    ensures
        walk(all, keep, p, 1) == match first_kept(keep, p) {
            Some(j) => (seq![Some(all[j])], j + 1),
            None => (seq![None::<(Entity, u32)>], all.len() as int),
        },
{
    reveal_with_fuel(walk, 2);
    match first_kept(keep, p) {
        Some(j) => {
            assert(seq![Some(all[j])] + Seq::<Option<(Entity, u32)>>::empty() =~= seq![Some(all[j])]);
        },
        None => {
            assert(seq![None::<(Entity, u32)>] + Seq::<Option<(Entity, u32)>>::empty() =~= seq![None::<(Entity, u32)>]);
        },
    }
}

/// From the end of the rows, every call hands out `None`.
proof fn lemma_walk_at_end(all: Seq<(Entity, u32)>, keep: Seq<bool>, n: nat)
    requires
        keep.len() == all.len(),
    ensures
        walk(all, keep, all.len() as int, n).0.len() == n,
        forall|i: int| 0 <= i < n ==> #[trigger] walk(all, keep, all.len() as int, n).0[i] is None,
        walk(all, keep, all.len() as int, n).1 == all.len(),
    decreases n,
{
    if n > 0 {
        lemma_first_kept(keep, all.len() as int);
        lemma_walk_at_end(all, keep, (n - 1) as nat);
        let rest = walk(all, keep, all.len() as int, (n - 1) as nat).0;
        let out = walk(all, keep, all.len() as int, n).0;
        assert(out == seq![None::<(Entity, u32)>] + rest);
        assert forall|i: int| 0 <= i < n implies #[trigger] out[i] is None by {
            if i > 0 {
                assert(out[i] == rest[i - 1]);
            }
        }
    }
}

/// The calls of [`QueryIterationCursor::next`] from position `p` hand out
/// every row kept from `p` on exactly once, in order, and after the last of
/// them only `None`, however many more calls are made; the cursor is then
/// left at the end of the rows.
pub proof fn lemma_cursor_walk_all(all: Seq<(Entity, u32)>, keep: Seq<bool>, p: int, extra: nat)
    requires
        keep.len() == all.len(),
        0 <= p <= all.len(),
    ensures
        ({
            let kept = kept_rows(all, keep, p, all.len() as int);
            let (out, last) = walk(all, keep, p, kept.len() + extra);
            &&& out.len() == kept.len() + extra
            &&& forall|i: int| 0 <= i < kept.len() ==> #[trigger] out[i] == Some(kept[i])
            &&& forall|i: int| kept.len() <= i < out.len() ==> #[trigger] out[i] is None
            &&& extra > 0 ==> last == all.len()
        }),
    decreases all.len() - p,
{
    lemma_cursor_walk(all, keep, p);
    let n = all.len() as int;
    let kept = kept_rows(all, keep, p, n);
    match first_kept(keep, p) {
        Some(j) => {
            lemma_cursor_walk_all(all, keep, j + 1, extra);
            let kept2 = kept_rows(all, keep, j + 1, n);
            assert(kept == seq![all[j]] + kept2);
            assert(kept.len() + extra == (kept2.len() + extra) + 1);
            let rest = walk(all, keep, j + 1, kept2.len() + extra).0;
            let out = walk(all, keep, p, kept.len() + extra).0;
            assert(((kept.len() + extra) - 1) as nat == kept2.len() + extra);
            assert(out == seq![Some(all[j])] + rest);
            assert forall|i: int| 0 <= i < kept.len() implies #[trigger] out[i] == Some(kept[i]) by {
                if i > 0 {
                    assert(out[i] == rest[i - 1]);
                    assert(kept[i] == kept2[i - 1]);
                }
            }
            assert forall|i: int| kept.len() <= i < out.len() implies #[trigger] out[i] is None by {
                assert(out[i] == rest[i - 1]);
            }
        },
        None => {
            assert(kept.len() == 0);
            if extra > 0 {
                lemma_walk_at_end(all, keep, (extra - 1) as nat);
                let rest = walk(all, keep, n, (extra - 1) as nat).0;
                let out = walk(all, keep, p, extra).0;
                assert(out == seq![None::<(Entity, u32)>] + rest);
                assert forall|i: int| 0 <= i < out.len() implies #[trigger] out[i] is None by {
                    if i > 0 {
                        assert(out[i] == rest[i - 1]);
                    }
                }
            }
        },
    }
}

} // verus!
