//! The queue store: one table of rows for all cabinets.

use vstd::prelude::*;

use crate::action::{effect, StoreAction};
use crate::cabinet::CabinetId;
use crate::entry::{rows_of, QueueEntry, Row};
use crate::error::Error;
use crate::lemmas::{lemma_filter_rows, lemma_shift_keeps_names};
use crate::table::{
    constraints_hold, has_entry, has_position, has_rows, is_at, is_entry, is_listing,
    is_max_position, is_top_listing, lists_in_order, position_of, positions_fit,
    positions_unique, shift_fits, shift_row, shifted, without_entry, without_positions,
    PositionFilter,
};

verus! {

/// The table of waiting players. It enforces two constraints at every
/// moment: within a cabinet no name occurs twice and no position occurs
/// twice. Keeping the positions dense is the engine's task.
pub struct QueueStore {
    rows: Vec<QueueEntry>,
}

impl View for QueueStore {
    type V = Seq<Row>;

    closed spec fn view(&self) -> Seq<Row> {
        rows_of(self.rows@)
    }
}

impl QueueStore {
    /// The table's constraints hold, and its positions are stored ones.
    pub open spec fn inv(&self) -> bool {
        constraints_hold(self@) && positions_fit(self@)
    }

    /// A table without rows.
    pub fn new() -> (store: QueueStore)
        ensures
            store@ == Seq::<Row>::empty(),
            store.inv(),
    {
        let store = QueueStore { rows: Vec::new() };
        assert(store@ =~= Seq::<Row>::empty());
        store
    }

    /// Whether `name` waits at `cabinet`.
    pub fn contains_entry(&self, cabinet: CabinetId, name: &str) -> (found: bool)
        ensures
            found == has_entry(self@, cabinet, name@),
    {
        let wanted = name.to_owned();
        let mut i: usize = 0;
        while i < self.rows.len()
            invariant
                0 <= i <= self.rows.len(),
                wanted@ == name@,
                forall|j: int| 0 <= j < i ==> !is_entry(#[trigger] self@[j], cabinet, name@),
            decreases self.rows.len() - i,
        {
            if self.rows[i].cabinet_id == cabinet && self.rows[i].name == wanted {
                assert(is_entry(self@[i as int], cabinet, name@));
                return true;
            }
            i += 1;
        }
        false
    }

    /// The position that `name` holds at `cabinet`; `NotFound` where it has
    /// no row there.
    pub fn position_of(&self, cabinet: CabinetId, name: &str) -> (r: Result<i32, Error>)
        requires
            self.inv(),
        ensures
            match r {
                Ok(position) => has_entry(self@, cabinet, name@) && position == position_of(
                    self@,
                    cabinet,
                    name@,
                ),
                Err(e) => e == Error::NotFound && !has_entry(self@, cabinet, name@),
            },
    {
        let wanted = name.to_owned();
        let mut i: usize = 0;
        while i < self.rows.len()
            invariant
                0 <= i <= self.rows.len(),
                wanted@ == name@,
                self.inv(),
                forall|j: int| 0 <= j < i ==> !is_entry(#[trigger] self@[j], cabinet, name@),
            decreases self.rows.len() - i,
        {
            if self.rows[i].cabinet_id == cabinet && self.rows[i].name == wanted {
                assert(is_entry(self@[i as int], cabinet, name@));
                return Ok(self.rows[i].position);
            }
            i += 1;
        }
        Err(Error::NotFound)
    }

    /// The greatest position held at `cabinet`, or `None` where the cabinet
    /// has no row.
    pub fn max_position(&self, cabinet: CabinetId) -> (top: Option<i32>)
        ensures
            match top {
                Some(position) => is_max_position(self@, cabinet, position as int),
                None => !has_rows(self@, cabinet),
            },
    {
        let mut top: Option<i32> = None;
        let mut i: usize = 0;
        while i < self.rows.len()
            invariant
                0 <= i <= self.rows.len(),
                match top {
                    Some(position) => {
                        &&& exists|j: int|
                            0 <= j < i && is_at(#[trigger] self@[j], cabinet, position as int)
                        &&& forall|j: int|
                            0 <= j < i && (#[trigger] self@[j]).cabinet == cabinet
                                ==> self@[j].position <= position
                    },
                    None => forall|j: int| 0 <= j < i ==> (#[trigger] self@[j]).cabinet != cabinet,
                },
            decreases self.rows.len() - i,
        {
            if self.rows[i].cabinet_id == cabinet {
                let position = self.rows[i].position;
                let higher = match top {
                    Some(best) => position > best,
                    None => true,
                };
                if higher {
                    assert(is_at(self@[i as int], cabinet, position as int));
                    top = Some(position);
                }
            }
            i += 1;
        }
        top
    }

    /// Adds the row of `name` at `cabinet` with `position`. Fails with
    /// `Conflict`, and changes nothing, where the name already has a row at
    /// that cabinet or the position is taken there.
    pub fn insert(&mut self, cabinet: CabinetId, name: &str, position: i32) -> (r: Result<
        (),
        Error,
    >)
        requires
            old(self).inv(),
        ensures
            final(self).inv(),
            match r {
                Ok(()) => {
                    &&& !has_entry(old(self)@, cabinet, name@)
                    &&& !has_position(old(self)@, cabinet, position as int)
                    &&& final(self)@ == old(self)@.push(
                        Row { cabinet, name: name@, position: position as int },
                    )
                },
                Err(e) => {
                    &&& e == Error::Conflict
                    &&& has_entry(old(self)@, cabinet, name@) || has_position(
                        old(self)@,
                        cabinet,
                        position as int,
                    )
                    &&& final(self)@ == old(self)@
                },
            },
    {
        let wanted = name.to_owned();
        let mut i: usize = 0;
        while i < self.rows.len()
            invariant
                0 <= i <= self.rows.len(),
                wanted@ == name@,
                self@ == old(self)@,
                self.inv(),
                forall|j: int| 0 <= j < i ==> !is_entry(#[trigger] self@[j], cabinet, name@),
                forall|j: int| 0 <= j < i ==> !is_at(#[trigger] self@[j], cabinet, position as int),
            decreases self.rows.len() - i,
        {
            if self.rows[i].cabinet_id == cabinet && (self.rows[i].name == wanted
                || self.rows[i].position == position) {
                assert(is_entry(self@[i as int], cabinet, name@) || is_at(
                    self@[i as int],
                    cabinet,
                    position as int,
                ));
                return Err(Error::Conflict);
            }
            i += 1;
        }
        self.rows.push(QueueEntry { cabinet_id: cabinet, name: wanted, position });
        assert(self@ =~= old(self)@.push(Row { cabinet, name: name@, position: position as int }));
        Ok(())
    }

    /// Deletes the row of `name` at `cabinet`, if there is one.
    pub fn delete_one(&mut self, cabinet: CabinetId, name: &str)
        requires
            old(self).inv(),
        ensures
            final(self).inv(),
            final(self)@ == without_entry(old(self)@, cabinet, name@),
    {
        let wanted = name.to_owned();
        let ghost before = self@;
        let ghost keep = |row: Row| !is_entry(row, cabinet, name@);
        let mut kept: Vec<QueueEntry> = Vec::new();
        let mut i: usize = 0;
        assert(before.take(0) =~= Seq::<Row>::empty());
        assert(rows_of(kept@) =~= before.take(0).filter(keep)) by {
            reveal(Seq::filter);
        }
        while i < self.rows.len()
            invariant
                0 <= i <= self.rows.len(),
                wanted@ == name@,
                self@ == before,
                keep == |row: Row| !is_entry(row, cabinet, name@),
                rows_of(kept@) == before.take(i as int).filter(keep),
            decreases self.rows.len() - i,
        {
            proof {
                assert(before.take(i + 1) =~= before.take(i as int).push(before[i as int]));
                before.take(i as int).lemma_filter_push(before[i as int], keep);
            }
            if !(self.rows[i].cabinet_id == cabinet && self.rows[i].name == wanted) {
                kept.push(self.rows[i].duplicate());
                assert(rows_of(kept@) =~= before.take(i as int).filter(keep).push(
                    before[i as int],
                ));
            }
            i += 1;
        }
        proof {
            assert(before.take(i as int) =~= before);
            lemma_filter_rows(before, keep);
        }
        self.rows = kept;
    }

    /// Deletes the rows of `cabinet` whose position meets `filter`.
    pub fn delete_where(&mut self, cabinet: CabinetId, filter: PositionFilter)
        requires
            old(self).inv(),
        ensures
            final(self).inv(),
            final(self)@ == without_positions(old(self)@, cabinet, filter),
    {
        let ghost before = self@;
        let ghost keep = |row: Row| !(row.cabinet == cabinet && filter.admits(row.position));
        let mut kept: Vec<QueueEntry> = Vec::new();
        let mut i: usize = 0;
        assert(before.take(0) =~= Seq::<Row>::empty());
        assert(rows_of(kept@) =~= before.take(0).filter(keep)) by {
            reveal(Seq::filter);
        }
        while i < self.rows.len()
            invariant
                0 <= i <= self.rows.len(),
                self@ == before,
                keep == |row: Row| !(row.cabinet == cabinet && filter.admits(row.position)),
                rows_of(kept@) == before.take(i as int).filter(keep),
            decreases self.rows.len() - i,
        {
            proof {
                assert(before.take(i + 1) =~= before.take(i as int).push(before[i as int]));
                before.take(i as int).lemma_filter_push(before[i as int], keep);
            }
            if !(self.rows[i].cabinet_id == cabinet && filter.matches(self.rows[i].position)) {
                kept.push(self.rows[i].duplicate());
                assert(rows_of(kept@) =~= before.take(i as int).filter(keep).push(
                    before[i as int],
                ));
            }
            i += 1;
        }
        proof {
            assert(before.take(i as int) =~= before);
            lemma_filter_rows(before, keep);
        }
        self.rows = kept;
    }

    /// Adds `delta` to the position of every row of `cabinet` whose position
    /// meets `filter`, all at once. Fails, and changes nothing, with
    /// `Internal` where a new position cannot be stored, and otherwise with
    /// `Conflict` where two rows of a cabinet would hold the same position.
    pub fn shift_positions(&mut self, cabinet: CabinetId, filter: PositionFilter, delta: i32) -> (r:
        Result<(), Error>)
        requires
            old(self).inv(),
        ensures
            final(self).inv(),
            match r {
                Ok(()) => {
                    &&& shift_fits(old(self)@, cabinet, filter, delta as int)
                    &&& positions_unique(shifted(old(self)@, cabinet, filter, delta as int))
                    &&& final(self)@ == shifted(old(self)@, cabinet, filter, delta as int)
                },
                Err(e) => {
                    &&& final(self)@ == old(self)@
                    &&& if shift_fits(old(self)@, cabinet, filter, delta as int) {
                        e == Error::Conflict && !positions_unique(
                            shifted(old(self)@, cabinet, filter, delta as int),
                        )
                    } else {
                        e == Error::Internal
                    }
                },
            },
    {
        let ghost before = self@;
        let ghost after = shifted(before, cabinet, filter, delta as int);
        let mut moved: Vec<QueueEntry> = Vec::new();
        let mut i: usize = 0;
        while i < self.rows.len()
            invariant
                0 <= i <= self.rows.len(),
                self@ == before,
                self.inv(),
                after == shifted(before, cabinet, filter, delta as int),
                moved.len() == i,
                forall|j: int| 0 <= j < i ==> (#[trigger] moved@[j])@ == after[j],
            decreases self.rows.len() - i,
        {
            let row = &self.rows[i];
            let mut position = row.position;
            if row.cabinet_id == cabinet && filter.matches(row.position) {
                match row.position.checked_add(delta) {
                    Some(sum) => {
                        position = sum;
                    },
                    None => {
                        assert(!(i32::MIN <= shift_row(
                            before[i as int],
                            cabinet,
                            filter,
                            delta as int,
                        ).position <= i32::MAX));
                        return Err(Error::Internal);
                    },
                }
            }
            moved.push(QueueEntry { cabinet_id: row.cabinet_id, name: row.name.clone(), position });
            i += 1;
        }
        assert(rows_of(moved@) =~= after);
        assert(shift_fits(before, cabinet, filter, delta as int)) by {
            assert forall|j: int| 0 <= j < before.len() implies i32::MIN <= (#[trigger] shift_row(
                before[j],
                cabinet,
                filter,
                delta as int,
            )).position <= i32::MAX by {
                assert(moved@[j]@ == after[j]);
            }
        }
        let mut a: usize = 0;
        while a < moved.len()
            invariant
                0 <= a <= moved.len(),
                self@ == before,
                self.inv(),
                rows_of(moved@) == after,
                after == shifted(before, cabinet, filter, delta as int),
                shift_fits(before, cabinet, filter, delta as int),
                forall|x: int, y: int|
                    #![trigger after[x], after[y]]
                    0 <= x < a && x < y < after.len() && after[x].cabinet == after[y].cabinet
                        ==> after[x].position != after[y].position,
            decreases moved.len() - a,
        {
            let mut b: usize = a + 1;
            while b < moved.len()
                invariant
                    0 <= a < b <= moved.len(),
                    self@ == before,
                    self.inv(),
                    rows_of(moved@) == after,
                    after == shifted(before, cabinet, filter, delta as int),
                    shift_fits(before, cabinet, filter, delta as int),
                    forall|y: int|
                        #![trigger after[y]]
                        a < y < b && after[a as int].cabinet == after[y].cabinet
                            ==> after[a as int].position != after[y].position,
                decreases moved.len() - b,
            {
                if moved[a].cabinet_id == moved[b].cabinet_id && moved[a].position
                    == moved[b].position {
                    assert(after[a as int] == moved@[a as int]@);
                    assert(after[b as int] == moved@[b as int]@);
                    assert(!positions_unique(after));
                    return Err(Error::Conflict);
                }
                assert(after[b as int] == moved@[b as int]@);
                assert(after[a as int] == moved@[a as int]@);
                b += 1;
            }
            a += 1;
        }
        assert(positions_unique(after)) by {
            assert forall|x: int, y: int|
                #![trigger after[x], after[y]]
                0 <= x < after.len() && 0 <= y < after.len() && x != y && after[x].cabinet
                    == after[y].cabinet implies after[x].position != after[y].position by {
                if x < y {
                } else {
                    assert(after[y].cabinet == after[x].cabinet);
                }
            }
        }
        proof {
            lemma_shift_keeps_names(before, cabinet, filter, delta as int);
        }
        self.rows = moved;
        Ok(())
    }

    /// The place of the row of `cabinet` with the smallest position above
    /// `floor`, or above all bounds where `floor` is `None`.
    fn next_above(&self, cabinet: CabinetId, floor: Option<i32>) -> (found: Option<usize>)
        ensures
            match found {
                Some(at) => {
                    &&& at < self@.len()
                    &&& self@[at as int].cabinet == cabinet
                    &&& floor matches Some(f) ==> self@[at as int].position > f
                    &&& forall|i: int|
                        0 <= i < self@.len() && (#[trigger] self@[i]).cabinet == cabinet && (
                        floor matches Some(f) ==> self@[i].position > f)
                            ==> self@[at as int].position <= self@[i].position
                },
                None => forall|i: int|
                    0 <= i < self@.len() && (#[trigger] self@[i]).cabinet == cabinet ==> (
                    floor matches Some(f) && self@[i].position <= f),
            },
    {
        let mut best: Option<usize> = None;
        let mut i: usize = 0;
        while i < self.rows.len()
            invariant
                0 <= i <= self.rows.len(),
                match best {
                    Some(at) => {
                        &&& at < i
                        &&& self@[at as int].cabinet == cabinet
                        &&& floor matches Some(f) ==> self@[at as int].position > f
                        &&& forall|j: int|
                            0 <= j < i && (#[trigger] self@[j]).cabinet == cabinet && (
                            floor matches Some(f) ==> self@[j].position > f)
                                ==> self@[at as int].position <= self@[j].position
                    },
                    None => forall|j: int|
                        0 <= j < i && (#[trigger] self@[j]).cabinet == cabinet ==> (
                        floor matches Some(f) && self@[j].position <= f),
                },
            decreases self.rows.len() - i,
        {
            let position = self.rows[i].position;
            let above = match floor {
                Some(f) => position > f,
                None => true,
            };
            if self.rows[i].cabinet_id == cabinet && above {
                let lower = match best {
                    Some(at) => position < self.rows[at].position,
                    None => true,
                };
                if lower {
                    best = Some(i);
                }
            }
            i += 1;
        }
        best
    }

    /// The first rows of `cabinet` by ascending position: all of them where
    /// `limit` is `None`, and else at most `limit`.
    fn list_first(&self, cabinet: CabinetId, limit: Option<usize>) -> (listing: Vec<QueueEntry>)
        requires
            self.inv(),
        ensures
            match limit {
                Some(most) => is_top_listing(self@, cabinet, most as int, rows_of(listing@)),
                None => is_listing(self@, cabinet, rows_of(listing@)),
            },
    {
        let mut out: Vec<QueueEntry> = Vec::new();
        let mut floor: Option<i32> = None;
        let mut done = false;
        while !done
            invariant
                self.inv(),
                lists_in_order(self@, cabinet, rows_of(out@)),
                limit matches Some(most) ==> out.len() <= most,
                floor is None <==> out.len() == 0,
                floor matches Some(f) ==> rows_of(out@).last().position == f,
                forall|i: int|
                    0 <= i < self@.len() && (#[trigger] self@[i]).cabinet == cabinet && (
                    floor matches Some(f) && self@[i].position <= f) ==> rows_of(out@).contains(
                        self@[i],
                    ),
                done ==> match limit {
                    Some(most) => is_top_listing(self@, cabinet, most as int, rows_of(out@)),
                    None => is_listing(self@, cabinet, rows_of(out@)),
                },
            decreases
                    if done {
                        0int
                    } else {
                        1int
                    },
                    match floor {
                        Some(f) => i32::MAX - f,
                        None => i32::MAX - i32::MIN + 1,
                    },
        {
            let ghost listed = rows_of(out@);
            let full = match limit {
                Some(most) => out.len() >= most,
                None => false,
            };
            if full {
                proof {
                    assert forall|i: int, j: int|
                        0 <= i < self@.len() && (#[trigger] self@[i]).cabinet == cabinet
                            && !listed.contains(self@[i]) && 0 <= j < listed.len() implies (
                    #[trigger] listed[j]).position < self@[i].position by {
                        if j < listed.len() - 1 {
                            assert(listed[j].position < listed[listed.len() - 1].position);
                        }
                    }
                }
                done = true;
            } else {
                match self.next_above(cabinet, floor) {
                    None => {
                        done = true;
                    },
                    Some(at) => {
                        let entry = self.rows[at].duplicate();
                        out.push(entry);
                        floor = Some(self.rows[at].position);
                        proof {
                            let grown = rows_of(out@);
                            let row = self@[at as int];
                            assert(grown =~= listed.push(row));
                            assert(self@.contains(row));
                            assert forall|j: int| 0 <= j < grown.len() implies self@.contains(
                                #[trigger] grown[j],
                            ) && grown[j].cabinet == cabinet by {
                                if j < listed.len() {
                                    assert(grown[j] == listed[j]);
                                }
                            }
                            assert forall|a: int, b: int| 0 <= a < b < grown.len() implies (
                            #[trigger] grown[a]).position < (#[trigger] grown[b]).position by {
                                assert(grown[a] == listed[a]);
                                if b < listed.len() {
                                    assert(grown[b] == listed[b]);
                                } else if a < listed.len() - 1 {
                                    assert(listed[a].position < listed[listed.len() - 1].position);
                                }
                            }
                            assert forall|i: int|
                                0 <= i < self@.len() && (#[trigger] self@[i]).cabinet == cabinet
                                    && self@[i].position <= row.position implies grown.contains(
                                self@[i],
                            ) by {
                                if listed.contains(self@[i]) {
                                    let j = choose|j: int|
                                        0 <= j < listed.len() && listed[j] == self@[i];
                                    assert(grown[j] == self@[i]);
                                } else {
                                    assert(self@[i].position == row.position);
                                    assert(i == at);
                                    assert(grown[grown.len() - 1] == row);
                                }
                            }
                        }
                    },
                }
            }
        }
        out
    }

    /// All the rows of `cabinet`, by ascending position.
    pub fn list_by_cabinet(&self, cabinet: CabinetId) -> (listing: Vec<QueueEntry>)
        requires
            self.inv(),
        ensures
            is_listing(self@, cabinet, rows_of(listing@)),
    {
        self.list_first(cabinet, None)
    }

    /// The first `n` rows of `cabinet` by ascending position, or all of them
    /// where there are fewer. Fails with `InvalidArgument` where `n` is
    /// smaller than one.
    pub fn list_top_n(&self, cabinet: CabinetId, n: i32) -> (r: Result<Vec<QueueEntry>, Error>)
        requires
            self.inv(),
        ensures
            match r {
                Ok(listing) => n >= 1 && is_top_listing(
                    self@,
                    cabinet,
                    n as int,
                    rows_of(listing@),
                ),
                Err(e) => e == Error::InvalidArgument && n < 1,
            },
    {
        if n < 1 {
            return Err(Error::InvalidArgument);
        }
        Ok(self.list_first(cabinet, Some(n as usize)))
    }

    /// Carries out one change to the table. The change is made as a whole or
    /// refused as a whole: a refusal changes nothing.
    pub fn apply(&mut self, action: &StoreAction) -> (r: Result<(), Error>)
        requires
            old(self).inv(),
        ensures
            final(self).inv(),
            match effect(old(self)@, action@) {
                Ok(rows) => r is Ok && final(self)@ == rows,
                Err(e) => r == Err::<(), Error>(e) && final(self)@ == old(self)@,
            },
    {
        match action {
            StoreAction::Insert { cabinet, name, position } => self.insert(
                *cabinet,
                name.as_str(),
                *position,
            ),
            StoreAction::DeleteOne { cabinet, name } => {
                self.delete_one(*cabinet, name.as_str());
                Ok(())
            },
            StoreAction::DeleteWhere { cabinet, filter } => {
                self.delete_where(*cabinet, *filter);
                Ok(())
            },
            StoreAction::Shift { cabinet, filter, delta } => self.shift_positions(
                *cabinet,
                *filter,
                *delta,
            ),
        }
    }
}

} // verus!
