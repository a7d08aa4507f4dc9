//! Facts about rows and lines on which the proofs of the store and of the
//! engine rest.

use vstd::prelude::*;

use crate::cabinet::CabinetId;
use crate::entry::Row;
use crate::table::{
    constraints_hold, dense, has_entry, has_position, has_rows, holds_line, is_at, is_entry,
    is_max_position, line_row, names_unique, position_of, positions_unique, queue, shift_row,
    shifted, well_ordered, PositionFilter,
};

verus! {

/// A cabinet's rows stand for at most one line.
pub proof fn lemma_line_unique(
    rows: Seq<Row>,
    cabinet: CabinetId,
    first: Seq<Seq<char>>,
    second: Seq<Seq<char>>,
)
    requires
        holds_line(rows, cabinet, first),
        holds_line(rows, cabinet, second),
    ensures
        first == second,
{
    if first.len() < second.len() {
        let r = line_row(cabinet, second, second.len() - 1);
        assert(rows.contains(r));
        let i = choose|i: int| 0 <= i < rows.len() && rows[i] == r;
        assert(rows[i].cabinet == cabinet);
    }
    if second.len() < first.len() {
        let r = line_row(cabinet, first, first.len() - 1);
        assert(rows.contains(r));
        let i = choose|i: int| 0 <= i < rows.len() && rows[i] == r;
        assert(rows[i].cabinet == cabinet);
    }
    assert forall|at: int| 0 <= at < first.len() implies first[at] == second[at] by {
        let r = line_row(cabinet, first, at);
        assert(rows.contains(r));
        let i = choose|i: int| 0 <= i < rows.len() && rows[i] == r;
        assert(rows[i].cabinet == cabinet);
    }
    assert(first =~= second);
}

/// Rows that stand for a line are dense, and the line is their queue.
pub proof fn lemma_queue_is(rows: Seq<Row>, cabinet: CabinetId, line: Seq<Seq<char>>)
    requires
        holds_line(rows, cabinet, line),
    ensures
        dense(rows, cabinet),
        queue(rows, cabinet) == line,
{
    lemma_line_unique(rows, cabinet, queue(rows, cabinet), line);
}

/// Under the table's constraints a line holds no name twice.
pub proof fn lemma_line_names_distinct(rows: Seq<Row>, cabinet: CabinetId, line: Seq<Seq<char>>)
    requires
        names_unique(rows),
        holds_line(rows, cabinet, line),
    ensures
        line.no_duplicates(),
{
    assert forall|a: int, b: int|
        0 <= a < line.len() && 0 <= b < line.len() && a != b implies line[a] != line[b] by {
        let ra = line_row(cabinet, line, a);
        let rb = line_row(cabinet, line, b);
        assert(rows.contains(ra));
        assert(rows.contains(rb));
        let i = choose|i: int| 0 <= i < rows.len() && rows[i] == ra;
        let j = choose|j: int| 0 <= j < rows.len() && rows[j] == rb;
        assert(rows[i].position != rows[j].position);
        assert(i != j);
    }
}

/// What a deletion keeps: the kept rows are exactly the rows that `keep`
/// admits, and the table's constraints still hold of them.
pub proof fn lemma_filter_rows(rows: Seq<Row>, keep: spec_fn(Row) -> bool)
    ensures
        forall|r: Row| #[trigger] rows.filter(keep).contains(r) <==> rows.contains(r) && keep(r),
        names_unique(rows) ==> names_unique(rows.filter(keep)),
        positions_unique(rows) ==> positions_unique(rows.filter(keep)),
    decreases rows.len(),
{
    reveal(Seq::filter);
    let kept = rows.filter(keep);
    if rows.len() == 0 {
    } else {
        let front = rows.drop_last();
        let last = rows.last();
        lemma_filter_rows(front, keep);
        let kept_front = front.filter(keep);
        assert forall|r: Row| #[trigger] kept.contains(r) <==> rows.contains(r) && keep(r) by {
            if kept.contains(r) {
                let j = choose|j: int| 0 <= j < kept.len() && kept[j] == r;
                if j < kept_front.len() {
                    assert(kept_front[j] == r);
                    assert(kept_front.contains(r));
                    assert(front.contains(r));
                    let i = choose|i: int| 0 <= i < front.len() && front[i] == r;
                    assert(rows[i] == r);
                } else {
                    assert(r == last);
                    assert(rows[rows.len() - 1] == r);
                }
            }
            if rows.contains(r) && keep(r) {
                let i = choose|i: int| 0 <= i < rows.len() && rows[i] == r;
                if i < front.len() {
                    assert(front[i] == r);
                    assert(front.contains(r));
                    assert(kept_front.contains(r));
                    let j = choose|j: int| 0 <= j < kept_front.len() && kept_front[j] == r;
                    assert(kept[j] == r);
                } else {
                    assert(kept[kept.len() - 1] == r);
                }
            }
        }
        if names_unique(rows) {
            assert(names_unique(front)) by {
                assert forall|i: int, j: int|
                    #![trigger front[i], front[j]]
                    0 <= i < front.len() && 0 <= j < front.len() && i != j && front[i].cabinet
                        == front[j].cabinet implies front[i].name != front[j].name by {
                    assert(rows[i] == front[i] && rows[j] == front[j]);
                }
            }
            assert forall|i: int, j: int|
                #![trigger kept[i], kept[j]]
                0 <= i < kept.len() && 0 <= j < kept.len() && i != j && kept[i].cabinet
                    == kept[j].cabinet implies kept[i].name != kept[j].name by {
                lemma_kept_pair(rows, keep, i, j);
            }
        }
        if positions_unique(rows) {
            assert(positions_unique(front)) by {
                assert forall|i: int, j: int|
                    #![trigger front[i], front[j]]
                    0 <= i < front.len() && 0 <= j < front.len() && i != j && front[i].cabinet
                        == front[j].cabinet implies front[i].position != front[j].position by {
                    assert(rows[i] == front[i] && rows[j] == front[j]);
                }
            }
            assert forall|i: int, j: int|
                #![trigger kept[i], kept[j]]
                0 <= i < kept.len() && 0 <= j < kept.len() && i != j && kept[i].cabinet
                    == kept[j].cabinet implies kept[i].position != kept[j].position by {
                lemma_kept_pair(rows, keep, i, j);
            }
        }
    }
}

/// Two different places of the kept rows come from two different places of
/// the rows.
proof fn lemma_kept_pair(rows: Seq<Row>, keep: spec_fn(Row) -> bool, i: int, j: int)
    requires
        0 <= i < rows.filter(keep).len(),
        0 <= j < rows.filter(keep).len(),
        i != j,
    ensures
        exists|a: int, b: int|
            0 <= a < rows.len() && 0 <= b < rows.len() && a != b && #[trigger] rows[a]
                == rows.filter(keep)[i] && #[trigger] rows[b] == rows.filter(keep)[j],
    decreases rows.len(),
{
    reveal(Seq::filter);
    let kept = rows.filter(keep);
    if rows.len() == 0 {
    } else {
        let front = rows.drop_last();
        let kept_front = front.filter(keep);
        let n = rows.len() - 1;
        if i < kept_front.len() && j < kept_front.len() {
            lemma_kept_pair(front, keep, i, j);
            let (a, b) = choose|a: int, b: int|
                0 <= a < front.len() && 0 <= b < front.len() && a != b && #[trigger] front[a]
                    == kept_front[i] && #[trigger] front[b] == kept_front[j];
            assert(rows[a] == kept[i] && rows[b] == kept[j]);
        } else if i < kept_front.len() {
            lemma_kept_from(front, keep, i);
            let a = choose|a: int| 0 <= a < front.len() && front[a] == kept_front[i];
            assert(rows[a] == kept[i] && rows[n] == kept[j]);
        } else {
            lemma_kept_from(front, keep, j);
            let b = choose|b: int| 0 <= b < front.len() && front[b] == kept_front[j];
            assert(rows[n] == kept[i] && rows[b] == kept[j]);
        }
    }
}

/// Every kept row comes from a place of the rows.
proof fn lemma_kept_from(rows: Seq<Row>, keep: spec_fn(Row) -> bool, j: int)
    requires
        0 <= j < rows.filter(keep).len(),
    ensures
        exists|a: int| 0 <= a < rows.len() && #[trigger] rows[a] == rows.filter(keep)[j],
    decreases rows.len(),
{
    reveal(Seq::filter);
    let kept = rows.filter(keep);
    if rows.len() == 0 {
    } else {
        let front = rows.drop_last();
        let kept_front = front.filter(keep);
        if j < kept_front.len() {
            lemma_kept_from(front, keep, j);
            let a = choose|a: int| 0 <= a < front.len() && front[a] == kept_front[j];
            assert(rows[a] == kept[j]);
        } else {
            assert(rows[rows.len() - 1] == kept[j]);
        }
    }
}

/// What a row of a cabinet holds where the cabinet's rows stand for a line.
pub proof fn lemma_row_in_line(rows: Seq<Row>, cabinet: CabinetId, line: Seq<Seq<char>>, row: Row)
    requires
        holds_line(rows, cabinet, line),
        rows.contains(row),
        row.cabinet == cabinet,
    ensures
        1 <= row.position <= line.len(),
        line[row.position - 1] == row.name,
{
    let i = choose|i: int| 0 <= i < rows.len() && rows[i] == row;
    assert(rows[i].cabinet == cabinet);
}

/// Rows stand for a line if every row of the cabinet is an entry of the
/// line and every entry of the line is a row.
pub proof fn lemma_holds_line_by_rows(rows: Seq<Row>, cabinet: CabinetId, line: Seq<Seq<char>>)
    requires
        forall|row: Row|
            #[trigger] rows.contains(row) && row.cabinet == cabinet ==> 1 <= row.position
                <= line.len() && line[row.position - 1] == row.name,
        forall|at: int|
            0 <= at < line.len() ==> rows.contains(#[trigger] line_row(cabinet, line, at)),
    ensures
        holds_line(rows, cabinet, line),
{
    assert forall|i: int| 0 <= i < rows.len() && (#[trigger] rows[i]).cabinet == cabinet implies 1
        <= rows[i].position <= line.len() && line[rows[i].position - 1] == rows[i].name by {
        assert(rows.contains(rows[i]));
    }
}

/// A cabinet whose rows are the same in two tables has the same line in
/// both.
pub proof fn lemma_same_rows_same_line(
    before: Seq<Row>,
    after: Seq<Row>,
    cabinet: CabinetId,
    line: Seq<Seq<char>>,
)
    requires
        holds_line(before, cabinet, line),
        forall|row: Row|
            row.cabinet == cabinet ==> (#[trigger] after.contains(row) <==> before.contains(row)),
    ensures
        holds_line(after, cabinet, line),
{
    assert forall|row: Row| #[trigger] after.contains(row) && row.cabinet == cabinet implies 1
        <= row.position <= line.len() && line[row.position - 1] == row.name by {
        lemma_row_in_line(before, cabinet, line, row);
    }
    assert forall|at: int| 0 <= at < line.len() implies after.contains(
        #[trigger] line_row(cabinet, line, at),
    ) by {
        assert(before.contains(line_row(cabinet, line, at)));
    }
    lemma_holds_line_by_rows(after, cabinet, line);
}

/// A name has a row at a cabinet exactly if it stands in the cabinet's
/// line.
pub proof fn lemma_entry_in_line(
    rows: Seq<Row>,
    cabinet: CabinetId,
    line: Seq<Seq<char>>,
    name: Seq<char>,
)
    requires
        holds_line(rows, cabinet, line),
    ensures
        has_entry(rows, cabinet, name) <==> line.contains(name),
{
    if has_entry(rows, cabinet, name) {
        let i = choose|i: int| 0 <= i < rows.len() && is_entry(#[trigger] rows[i], cabinet, name);
        assert(line[rows[i].position - 1] == name);
    }
    if line.contains(name) {
        let at = choose|at: int| 0 <= at < line.len() && line[at] == name;
        let row = line_row(cabinet, line, at);
        assert(rows.contains(row));
        let i = choose|i: int| 0 <= i < rows.len() && rows[i] == row;
        assert(is_entry(rows[i], cabinet, name));
    }
}

/// A position is held at a cabinet exactly if it lies within the line.
pub proof fn lemma_position_in_line(
    rows: Seq<Row>,
    cabinet: CabinetId,
    line: Seq<Seq<char>>,
    position: int,
)
    requires
        holds_line(rows, cabinet, line),
    ensures
        has_position(rows, cabinet, position) <==> 1 <= position <= line.len(),
{
    if has_position(rows, cabinet, position) {
        let i = choose|i: int| 0 <= i < rows.len() && is_at(#[trigger] rows[i], cabinet, position);
        assert(rows[i].cabinet == cabinet);
    }
    if 1 <= position <= line.len() {
        let row = line_row(cabinet, line, position - 1);
        assert(rows.contains(row));
        let i = choose|i: int| 0 <= i < rows.len() && rows[i] == row;
        assert(is_at(rows[i], cabinet, position));
    }
}

/// Where a name waits: its position is one more than its place in the line.
pub proof fn lemma_place_of_entry(
    rows: Seq<Row>,
    cabinet: CabinetId,
    line: Seq<Seq<char>>,
    name: Seq<char>,
)
    requires
        names_unique(rows),
        holds_line(rows, cabinet, line),
        has_entry(rows, cabinet, name),
    ensures
        line.contains(name),
        line.no_duplicates(),
        1 <= position_of(rows, cabinet, name) <= line.len(),
        line.index_of(name) == position_of(rows, cabinet, name) - 1,
        rows.contains(Row { cabinet, name, position: position_of(rows, cabinet, name) }),
{
    lemma_entry_in_line(rows, cabinet, line, name);
    lemma_line_names_distinct(rows, cabinet, line);
    let i = choose|i: int| 0 <= i < rows.len() && is_entry(#[trigger] rows[i], cabinet, name);
    assert(rows[i].cabinet == cabinet);
    assert(line[rows[i].position - 1] == name);
    assert(rows[i] == Row { cabinet, name, position: position_of(rows, cabinet, name) });
}

/// The greatest position held at a cabinet is the length of its line, and a
/// cabinet without rows has the empty line.
pub proof fn lemma_top_of_line(rows: Seq<Row>, cabinet: CabinetId, line: Seq<Seq<char>>)
    requires
        holds_line(rows, cabinet, line),
    ensures
        has_rows(rows, cabinet) <==> line.len() > 0,
        forall|top: int| is_max_position(rows, cabinet, top) ==> top == line.len(),
{
    if has_rows(rows, cabinet) {
        let i = choose|i: int| 0 <= i < rows.len() && (#[trigger] rows[i]).cabinet == cabinet;
        assert(1 <= rows[i].position <= line.len());
    }
    if line.len() > 0 {
        let row = line_row(cabinet, line, 0);
        assert(rows.contains(row));
        let i = choose|i: int| 0 <= i < rows.len() && rows[i] == row;
        assert(rows[i].cabinet == cabinet);
    }
    assert forall|top: int| is_max_position(rows, cabinet, top) implies top == line.len() by {
        lemma_position_in_line(rows, cabinet, line, top);
        let row = line_row(cabinet, line, line.len() - 1);
        assert(rows.contains(row));
        let i = choose|i: int| 0 <= i < rows.len() && rows[i] == row;
        assert(rows[i].cabinet == cabinet);
    }
}

/// A table without rows holds the empty line for every cabinet.
pub proof fn lemma_empty_table()
    ensures
        constraints_hold(Seq::<Row>::empty()),
        well_ordered(Seq::<Row>::empty()),
        forall|cabinet: CabinetId|
            #[trigger] queue(Seq::<Row>::empty(), cabinet) == Seq::<Seq<char>>::empty(),
{
    let rows = Seq::<Row>::empty();
    assert forall|cabinet: CabinetId|
        #![trigger dense(rows, cabinet)]
        #![trigger queue(rows, cabinet)]
        dense(rows, cabinet) && queue(rows, cabinet) == Seq::<Seq<char>>::empty() by {
        assert(holds_line(rows, cabinet, Seq::<Seq<char>>::empty()));
        lemma_queue_is(rows, cabinet, Seq::<Seq<char>>::empty());
    }
}

/// What a pushed row changes: the table then holds the old rows and the new
/// one.
pub proof fn lemma_pushed_rows(rows: Seq<Row>, added: Row)
    ensures
        forall|row: Row|
            #[trigger] rows.push(added).contains(row) <==> rows.contains(row) || row == added,
{
    let grown = rows.push(added);
    assert forall|row: Row| #[trigger] grown.contains(row) <==> rows.contains(row) || row
        == added by {
        if grown.contains(row) {
            let i = choose|i: int| 0 <= i < grown.len() && grown[i] == row;
            if i < rows.len() {
                assert(rows[i] == row);
            }
        }
        if rows.contains(row) {
            let i = choose|i: int| 0 <= i < rows.len() && rows[i] == row;
            assert(grown[i] == row);
        }
        if row == added {
            assert(grown[rows.len() as int] == row);
        }
    }
}

/// A shift keeps the names of the table distinct within each cabinet.
pub proof fn lemma_shift_keeps_names(
    rows: Seq<Row>,
    cabinet: CabinetId,
    filter: PositionFilter,
    delta: int,
)
    requires
        names_unique(rows),
    ensures
        names_unique(shifted(rows, cabinet, filter, delta)),
{
    let after = shifted(rows, cabinet, filter, delta);
    assert forall|i: int, j: int|
        #![trigger after[i], after[j]]
        0 <= i < after.len() && 0 <= j < after.len() && i != j && after[i].cabinet
            == after[j].cabinet implies after[i].name != after[j].name by {
        assert(rows[i].cabinet == rows[j].cabinet);
    }
}

/// Every row has its shifted row in the shifted table.
pub proof fn lemma_shifted_has(
    rows: Seq<Row>,
    cabinet: CabinetId,
    filter: PositionFilter,
    delta: int,
    row: Row,
)
    requires
        rows.contains(row),
    ensures
        shifted(rows, cabinet, filter, delta).contains(shift_row(row, cabinet, filter, delta)),
{
    let i = choose|i: int| 0 <= i < rows.len() && rows[i] == row;
    assert(shifted(rows, cabinet, filter, delta)[i] == shift_row(row, cabinet, filter, delta));
}

/// Every row of the shifted table is the shifted row of a row.
pub proof fn lemma_shifted_from(
    rows: Seq<Row>,
    cabinet: CabinetId,
    filter: PositionFilter,
    delta: int,
    row: Row,
) -> (source: Row)
    requires
        shifted(rows, cabinet, filter, delta).contains(row),
    ensures
        rows.contains(source),
        shift_row(source, cabinet, filter, delta) == row,
{
    let after = shifted(rows, cabinet, filter, delta);
    let i = choose|i: int| 0 <= i < after.len() && after[i] == row;
    assert(rows[i] == rows[i]);
    rows[i]
}

/// A shift leaves the rows of the other cabinets as they are.
pub proof fn lemma_shifted_elsewhere(
    rows: Seq<Row>,
    cabinet: CabinetId,
    filter: PositionFilter,
    delta: int,
)
    ensures
        forall|row: Row|
            row.cabinet != cabinet ==> (#[trigger] shifted(rows, cabinet, filter, delta).contains(
                row,
            ) <==> rows.contains(row)),
{
    let after = shifted(rows, cabinet, filter, delta);
    assert forall|row: Row| row.cabinet != cabinet implies (#[trigger] after.contains(row)
        <==> rows.contains(row)) by {
        if after.contains(row) {
            let source = lemma_shifted_from(rows, cabinet, filter, delta, row);
        }
        if rows.contains(row) {
            lemma_shifted_has(rows, cabinet, filter, delta, row);
        }
    }
}

} // verus!
