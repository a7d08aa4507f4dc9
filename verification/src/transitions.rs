//! What the steps of each transition do to the table: the rows stay within
//! the table's constraints, dense for every cabinet, and stand for the line
//! that the transition is meant to leave.

use vstd::prelude::*;

use crate::action::{applied, Step};
use crate::cabinet::CabinetId;
use crate::entry::Row;
use crate::lemmas::{
    lemma_filter_rows, lemma_holds_line_by_rows, lemma_place_of_entry, lemma_position_in_line,
    lemma_pushed_rows, lemma_queue_is, lemma_row_in_line, lemma_same_rows_same_line,
    lemma_shift_keeps_names, lemma_shifted_elsewhere, lemma_shifted_from, lemma_shifted_has,
    lemma_top_of_line,
};
use crate::line::{after_join, after_leave, after_next, after_postpone, served_count};
use crate::plan::{
    join_steps, leave_steps, lemma_applied_one, lemma_applied_three, lemma_applied_two,
    next_steps, position_behind, postpone_steps,
};
use crate::table::{
    constraints_hold, dense, has_entry, has_position, has_rows, holds_line, is_entry, is_listing,
    is_max_position, is_top_listing, line_row, line_rows, position_of, positions_fit,
    positions_unique, queue, shift_fits, shift_row, shifted, well_ordered, without_entry,
    without_positions, PositionFilter,
};

verus! {

/// A transition on one cabinet that leaves the rows of the others alone
/// leaves their lines alone.
pub proof fn lemma_other_lines_stay(before: Seq<Row>, after: Seq<Row>, cabinet: CabinetId)
    requires
        well_ordered(before),
        dense(after, cabinet),
        forall|row: Row|
            row.cabinet != cabinet ==> (#[trigger] after.contains(row) <==> before.contains(row)),
    ensures
        well_ordered(after),
        forall|other: CabinetId|
            other != cabinet ==> #[trigger] queue(after, other) == queue(before, other),
{
    assert forall|other: CabinetId|
        #![trigger dense(after, other)]
        #![trigger queue(after, other)]
        other != cabinet implies dense(after, other) && queue(after, other) == queue(
        before,
        other,
    ) by {
        assert(dense(before, other));
        lemma_same_rows_same_line(before, after, other, queue(before, other));
        lemma_queue_is(after, other, queue(before, other));
    }
}

/// Joining: the insertion behind the greatest position of the cabinet is
/// accepted, and the cabinet's line is then the old one with the name at its
/// end.
pub proof fn lemma_join_steps(
    rows: Seq<Row>,
    cabinet: CabinetId,
    name: Seq<char>,
    top: Option<i32>,
)
    requires
        constraints_hold(rows),
        well_ordered(rows),
        !has_entry(rows, cabinet, name),
        match top {
            Some(last) => is_max_position(rows, cabinet, last as int),
            None => !has_rows(rows, cabinet),
        },
    ensures
        ({
            let added = Row { cabinet, name, position: position_behind(top) };
            let after = rows.push(added);
            &&& applied(rows, join_steps(cabinet, name, top)) == Some(after)
            &&& position_behind(top) == queue(rows, cabinet).len() + 1
            &&& well_ordered(after)
            &&& queue(after, cabinet) == after_join(queue(rows, cabinet), name)
            &&& forall|other: CabinetId|
                other != cabinet ==> #[trigger] queue(after, other) == queue(rows, other)
        }),
{
    let line = queue(rows, cabinet);
    assert(dense(rows, cabinet));
    lemma_top_of_line(rows, cabinet, line);
    lemma_position_in_line(rows, cabinet, line, position_behind(top));
    lemma_applied_one(rows, Step::Insert { cabinet, name, position: position_behind(top) });
    let added = Row { cabinet, name, position: line.len() as int + 1 };
    let after = rows.push(added);
    let longer = line.push(name);
    lemma_pushed_rows(rows, added);
    assert forall|row: Row| #[trigger] after.contains(row) && row.cabinet == cabinet implies 1
        <= row.position <= longer.len() && longer[row.position - 1] == row.name by {
        if row != added {
            lemma_row_in_line(rows, cabinet, line, row);
        }
    }
    assert forall|at: int| 0 <= at < longer.len() implies after.contains(
        #[trigger] line_row(cabinet, longer, at),
    ) by {
        if at < line.len() {
            assert(rows.contains(line_row(cabinet, line, at)));
            assert(line_row(cabinet, longer, at) == line_row(cabinet, line, at));
        } else {
            assert(line_row(cabinet, longer, at) == added);
        }
    }
    lemma_holds_line_by_rows(after, cabinet, longer);
    lemma_queue_is(after, cabinet, longer);
    lemma_other_lines_stay(rows, after, cabinet);
}

/// Leaving: once the row of `name` is deleted and the rows behind it are
/// shifted down by one, the cabinet's line is the old one without the name.
pub proof fn lemma_leave(rows: Seq<Row>, cabinet: CabinetId, name: Seq<char>, position: i32)
    requires
        constraints_hold(rows),
        positions_fit(rows),
        well_ordered(rows),
        has_entry(rows, cabinet, name),
        position == position_of(rows, cabinet, name),
    ensures
        ({
            let gone = without_entry(rows, cabinet, name);
            let after = shifted(gone, cabinet, PositionFilter::Above(position), -1);
            &&& applied(rows, leave_steps(cabinet, name, position)) == Some(after)
            &&& constraints_hold(after)
            &&& well_ordered(after)
            &&& queue(after, cabinet) == after_leave(queue(rows, cabinet), name)
            &&& forall|other: CabinetId|
                other != cabinet ==> #[trigger] queue(after, other) == queue(rows, other)
        }),
{
    let line = queue(rows, cabinet);
    let filter = PositionFilter::Above(position);
    let keep = |row: Row| !is_entry(row, cabinet, name);
    let gone = without_entry(rows, cabinet, name);
    let after = shifted(gone, cabinet, filter, -1);
    let at = position - 1;
    let shorter = line.remove(at);
    assert(dense(rows, cabinet));
    lemma_place_of_entry(rows, cabinet, line, name);
    lemma_filter_rows(rows, keep);
    // What the rows of the cabinet hold once the name is gone.
    assert forall|row: Row| #[trigger] gone.contains(row) && row.cabinet == cabinet implies 1
        <= row.position <= line.len() && row.position != position && line[row.position - 1]
        == row.name by {
        lemma_row_in_line(rows, cabinet, line, row);
    }
    assert forall|i: int| 0 <= i < gone.len() && (#[trigger] gone[i]).cabinet == cabinet implies 1
        <= gone[i].position <= line.len() && gone[i].position != position by {
        assert(gone.contains(gone[i]));
    }
    assert(shift_fits(gone, cabinet, filter, -1)) by {
        assert forall|i: int| 0 <= i < gone.len() implies i32::MIN <= (#[trigger] shift_row(
            gone[i],
            cabinet,
            filter,
            -1,
        )).position <= i32::MAX by {
            assert(gone.contains(gone[i]));
            assert(rows.contains(gone[i]));
            let k = choose|k: int| 0 <= k < rows.len() && rows[k] == gone[i];
            assert(i32::MIN <= rows[k].position <= i32::MAX);
        }
    }
    lemma_shift_keeps_names(gone, cabinet, filter, -1);
    assert(positions_unique(after)) by {
        assert forall|i: int, j: int|
            #![trigger after[i], after[j]]
            0 <= i < after.len() && 0 <= j < after.len() && i != j && after[i].cabinet
                == after[j].cabinet implies after[i].position != after[j].position by {
            assert(gone[i].cabinet == gone[j].cabinet);
            assert(gone[i].position != gone[j].position);
        }
    }
    // The rows of the cabinet stand for the shorter line.
    assert forall|row: Row| #[trigger] after.contains(row) && row.cabinet == cabinet implies 1
        <= row.position <= shorter.len() && shorter[row.position - 1] == row.name by {
        let source = lemma_shifted_from(gone, cabinet, filter, -1, row);
        assert(gone.contains(source));
    }
    assert forall|to: int| 0 <= to < shorter.len() implies after.contains(
        #[trigger] line_row(cabinet, shorter, to),
    ) by {
        let from = if to < at {
            to
        } else {
            to + 1
        };
        let source = line_row(cabinet, line, from);
        assert(rows.contains(source));
        assert(line[from] != line[at]);
        assert(gone.contains(source));
        lemma_shifted_has(gone, cabinet, filter, -1, source);
        assert(shift_row(source, cabinet, filter, -1) == line_row(cabinet, shorter, to));
    }
    lemma_holds_line_by_rows(after, cabinet, shorter);
    lemma_queue_is(after, cabinet, shorter);
    lemma_shifted_elsewhere(gone, cabinet, filter, -1);
    lemma_other_lines_stay(rows, after, cabinet);
    let delete = Step::DeleteOne { cabinet, name };
    let shift = Step::Shift { cabinet, filter, delta: -1 };
    lemma_applied_two(rows, delete, shift);
    lemma_applied_one(gone, shift);
}

/// Serving: once the rows up to position `n` are deleted and the rows behind
/// them are shifted down by `n`, the cabinet's line is the old one without
/// its first `n` names.
pub proof fn lemma_next(rows: Seq<Row>, cabinet: CabinetId, n: i32)
    requires
        constraints_hold(rows),
        positions_fit(rows),
        well_ordered(rows),
        n >= 1,
    ensures
        ({
            let gone = without_positions(rows, cabinet, PositionFilter::UpTo(n));
            let after = shifted(gone, cabinet, PositionFilter::Above(n), -n);
            &&& applied(rows, next_steps(cabinet, n)) == Some(after)
            &&& constraints_hold(after)
            &&& well_ordered(after)
            &&& queue(after, cabinet) == after_next(queue(rows, cabinet), n as int)
            &&& forall|other: CabinetId|
                other != cabinet ==> #[trigger] queue(after, other) == queue(rows, other)
        }),
{
    let line = queue(rows, cabinet);
    let filter = PositionFilter::Above(n);
    let keep = |row: Row| !(row.cabinet == cabinet && PositionFilter::UpTo(n).admits(row.position));
    let gone = without_positions(rows, cabinet, PositionFilter::UpTo(n));
    let after = shifted(gone, cabinet, filter, -n);
    let count = served_count(line, n as int);
    let rest = line.skip(count);
    assert(dense(rows, cabinet));
    lemma_filter_rows(rows, keep);
    assert forall|row: Row| #[trigger] gone.contains(row) && row.cabinet == cabinet implies n
        < row.position <= line.len() && line[row.position - 1] == row.name by {
        lemma_row_in_line(rows, cabinet, line, row);
    }
    assert forall|i: int| 0 <= i < gone.len() && (#[trigger] gone[i]).cabinet == cabinet implies n
        < gone[i].position <= line.len() by {
        assert(gone.contains(gone[i]));
    }
    assert(shift_fits(gone, cabinet, filter, -n)) by {
        assert forall|i: int| 0 <= i < gone.len() implies i32::MIN <= (#[trigger] shift_row(
            gone[i],
            cabinet,
            filter,
            -n,
        )).position <= i32::MAX by {
            assert(gone.contains(gone[i]));
            assert(rows.contains(gone[i]));
            let k = choose|k: int| 0 <= k < rows.len() && rows[k] == gone[i];
            assert(i32::MIN <= rows[k].position <= i32::MAX);
        }
    }
    lemma_shift_keeps_names(gone, cabinet, filter, -n);
    assert(positions_unique(after)) by {
        assert forall|i: int, j: int|
            #![trigger after[i], after[j]]
            0 <= i < after.len() && 0 <= j < after.len() && i != j && after[i].cabinet
                == after[j].cabinet implies after[i].position != after[j].position by {
            assert(gone[i].cabinet == gone[j].cabinet);
            assert(gone[i].position != gone[j].position);
        }
    }
    assert forall|row: Row| #[trigger] after.contains(row) && row.cabinet == cabinet implies 1
        <= row.position <= rest.len() && rest[row.position - 1] == row.name by {
        let source = lemma_shifted_from(gone, cabinet, filter, -n, row);
        assert(gone.contains(source));
    }
    assert forall|to: int| 0 <= to < rest.len() implies after.contains(
        #[trigger] line_row(cabinet, rest, to),
    ) by {
        let source = line_row(cabinet, line, to + n);
        assert(rows.contains(source));
        assert(gone.contains(source));
        lemma_shifted_has(gone, cabinet, filter, -n, source);
        assert(shift_row(source, cabinet, filter, -n) == line_row(cabinet, rest, to));
    }
    lemma_holds_line_by_rows(after, cabinet, rest);
    lemma_queue_is(after, cabinet, rest);
    lemma_shifted_elsewhere(gone, cabinet, filter, -n);
    lemma_other_lines_stay(rows, after, cabinet);
    let delete = Step::DeleteWhere { cabinet, filter: PositionFilter::UpTo(n) };
    let shift = Step::Shift { cabinet, filter, delta: -n };
    lemma_applied_two(rows, delete, shift);
    lemma_applied_one(gone, shift);
}

/// Postponing: once the row of `name` is deleted, the row behind it is
/// shifted down by one and the name is inserted one position further back,
/// the cabinet's line is the old one with the two names swapped.
pub proof fn lemma_postpone(rows: Seq<Row>, cabinet: CabinetId, name: Seq<char>, position: i32)
    requires
        constraints_hold(rows),
        positions_fit(rows),
        well_ordered(rows),
        has_entry(rows, cabinet, name),
        position == position_of(rows, cabinet, name),
        position < queue(rows, cabinet).len(),
    ensures
        ({
            let filter = PositionFilter::Exactly((position + 1) as i32);
            let gone = without_entry(rows, cabinet, name);
            let moved = shifted(gone, cabinet, filter, -1);
            let after = moved.push(Row { cabinet, name, position: position + 1 });
            &&& position < i32::MAX
            &&& applied(rows, postpone_steps(cabinet, name, position)) == Some(after)
            &&& constraints_hold(after)
            &&& well_ordered(after)
            &&& queue(after, cabinet) == after_postpone(queue(rows, cabinet), name)
            &&& forall|other: CabinetId|
                other != cabinet ==> #[trigger] queue(after, other) == queue(rows, other)
        }),
{
    let line = queue(rows, cabinet);
    let filter = PositionFilter::Exactly((position + 1) as i32);
    let keep = |row: Row| !is_entry(row, cabinet, name);
    let gone = without_entry(rows, cabinet, name);
    let moved = shifted(gone, cabinet, filter, -1);
    let added = Row { cabinet, name, position: position + 1 };
    let after = moved.push(added);
    let at = position - 1;
    let swapped = after_postpone(line, name);
    assert(dense(rows, cabinet));
    lemma_place_of_entry(rows, cabinet, line, name);
    lemma_filter_rows(rows, keep);
    // The line is no longer than the greatest position that a row can hold.
    assert(line.len() <= i32::MAX) by {
        let last = line_row(cabinet, line, line.len() - 1);
        assert(rows.contains(last));
        let k = choose|k: int| 0 <= k < rows.len() && rows[k] == last;
        assert(i32::MIN <= rows[k].position <= i32::MAX);
    }
    assert(swapped.len() == line.len());
    assert forall|row: Row| #[trigger] gone.contains(row) && row.cabinet == cabinet implies 1
        <= row.position <= line.len() && row.position != position && row.name != name
        && line[row.position - 1] == row.name by {
        lemma_row_in_line(rows, cabinet, line, row);
    }
    assert forall|i: int| 0 <= i < gone.len() && (#[trigger] gone[i]).cabinet == cabinet implies 1
        <= gone[i].position <= line.len() && gone[i].position != position && gone[i].name
        != name by {
        assert(gone.contains(gone[i]));
    }
    assert(shift_fits(gone, cabinet, filter, -1)) by {
        assert forall|i: int| 0 <= i < gone.len() implies i32::MIN <= (#[trigger] shift_row(
            gone[i],
            cabinet,
            filter,
            -1,
        )).position <= i32::MAX by {
            assert(gone.contains(gone[i]));
            assert(rows.contains(gone[i]));
            let k = choose|k: int| 0 <= k < rows.len() && rows[k] == gone[i];
            assert(i32::MIN <= rows[k].position <= i32::MAX);
        }
    }
    lemma_shift_keeps_names(gone, cabinet, filter, -1);
    assert(positions_unique(moved)) by {
        assert forall|i: int, j: int|
            #![trigger moved[i], moved[j]]
            0 <= i < moved.len() && 0 <= j < moved.len() && i != j && moved[i].cabinet
                == moved[j].cabinet implies moved[i].position != moved[j].position by {
            assert(gone[i].cabinet == gone[j].cabinet);
            assert(gone[i].position != gone[j].position);
        }
    }
    assert forall|i: int|
        0 <= i < moved.len() && (#[trigger] moved[i]).cabinet == cabinet implies moved[i].position
        != position + 1 && moved[i].name != name by {
        assert(gone[i].cabinet == cabinet);
    }
    assert(!has_entry(moved, cabinet, name));
    assert(!has_position(moved, cabinet, position + 1));
    assert(constraints_hold(after)) by {
        assert forall|i: int, j: int|
            #![trigger after[i], after[j]]
            0 <= i < after.len() && 0 <= j < after.len() && i != j && after[i].cabinet
                == after[j].cabinet implies after[i].name != after[j].name && after[i].position
            != after[j].position by {
            if i < moved.len() {
                assert(after[i] == moved[i]);
            }
            if j < moved.len() {
                assert(after[j] == moved[j]);
            }
        }
    }
    lemma_pushed_rows(moved, added);
    assert forall|row: Row| #[trigger] after.contains(row) && row.cabinet == cabinet implies 1
        <= row.position <= swapped.len() && swapped[row.position - 1] == row.name by {
        if row != added {
            let source = lemma_shifted_from(gone, cabinet, filter, -1, row);
            assert(gone.contains(source));
        }
    }
    assert forall|to: int| 0 <= to < swapped.len() implies after.contains(
        #[trigger] line_row(cabinet, swapped, to),
    ) by {
        if to == at + 1 {
            assert(line_row(cabinet, swapped, to) == added);
        } else {
            let from = if to == at {
                at + 1
            } else {
                to
            };
            let source = line_row(cabinet, line, from);
            assert(rows.contains(source));
            assert(line[from] != line[at]);
            assert(gone.contains(source));
            lemma_shifted_has(gone, cabinet, filter, -1, source);
            assert(shift_row(source, cabinet, filter, -1) == line_row(cabinet, swapped, to));
            assert(moved.contains(line_row(cabinet, swapped, to)));
        }
    }
    lemma_holds_line_by_rows(after, cabinet, swapped);
    lemma_queue_is(after, cabinet, swapped);
    lemma_shifted_elsewhere(gone, cabinet, filter, -1);
    lemma_other_lines_stay(rows, after, cabinet);
    let delete = Step::DeleteOne { cabinet, name };
    let shift = Step::Shift { cabinet, filter, delta: -1 };
    let insert = Step::Insert { cabinet, name, position: position + 1 };
    lemma_applied_three(rows, delete, shift, insert);
    lemma_applied_two(gone, shift, insert);
    lemma_applied_one(moved, insert);
}

/// In a listing of a cabinet whose rows stand for a line, the row at index
/// `j` holds position `j + 1`.
proof fn lemma_listed_position(
    rows: Seq<Row>,
    cabinet: CabinetId,
    line: Seq<Seq<char>>,
    limit: int,
    listing: Seq<Row>,
    j: int,
)
    requires
        holds_line(rows, cabinet, line),
        is_top_listing(rows, cabinet, limit, listing),
        0 <= j < listing.len(),
    ensures
        listing[j].position == j + 1,
    decreases j,
{
    lemma_row_in_line(rows, cabinet, line, listing[j]);
    if j > 0 {
        lemma_listed_position(rows, cabinet, line, limit, listing, j - 1);
        assert(listing[j - 1].position < listing[j].position);
    }
    if listing[j].position > j + 1 {
        let missed = line_row(cabinet, line, j);
        assert(rows.contains(missed));
        let k = choose|k: int| 0 <= k < rows.len() && rows[k] == missed;
        assert(rows[k].cabinet == cabinet);
        if listing.contains(missed) {
            let a = choose|a: int| 0 <= a < listing.len() && listing[a] == missed;
            if a < j - 1 {
                assert(listing[a].position < listing[j - 1].position);
            } else if a > j {
                assert(listing[j].position < listing[a].position);
            }
        } else {
            assert(listing[j].position < rows[k].position);
        }
    }
}

/// The first rows of a cabinet, listed by position, are the first entries of
/// its line.
pub proof fn lemma_top_listing_is_line(
    rows: Seq<Row>,
    cabinet: CabinetId,
    limit: int,
    listing: Seq<Row>,
)
    requires
        dense(rows, cabinet),
        is_top_listing(rows, cabinet, limit, listing),
    ensures
        listing == line_rows(cabinet, queue(rows, cabinet)).take(
            served_count(queue(rows, cabinet), limit),
        ),
{
    let line = queue(rows, cabinet);
    let count = served_count(line, limit);
    let n = listing.len() as int;
    assert forall|j: int| 0 <= j < n implies #[trigger] listing[j] == line_row(cabinet, line, j)
        && j < line.len() by {
        lemma_listed_position(rows, cabinet, line, limit, listing, j);
        lemma_row_in_line(rows, cabinet, line, listing[j]);
    }
    if n > 0 {
        assert(listing[n - 1] == line_row(cabinet, line, n - 1));
    }
    if n < count {
        let missed = line_row(cabinet, line, n);
        assert(rows.contains(missed));
        let k = choose|k: int| 0 <= k < rows.len() && rows[k] == missed;
        assert(rows[k].cabinet == cabinet);
        if listing.contains(missed) {
            let a = choose|a: int| 0 <= a < listing.len() && listing[a] == missed;
            assert(listing[a] == line_row(cabinet, line, a));
        }
    }
    assert(listing =~= line_rows(cabinet, line).take(count));
}

/// All the rows of a cabinet, listed by position, are the entries of its
/// line.
pub proof fn lemma_listing_is_line(rows: Seq<Row>, cabinet: CabinetId, listing: Seq<Row>)
    requires
        dense(rows, cabinet),
        is_listing(rows, cabinet, listing),
    ensures
        listing == line_rows(cabinet, queue(rows, cabinet)),
{
    let line = queue(rows, cabinet);
    let limit = listing.len() as int + 1;
    assert(is_top_listing(rows, cabinet, limit, listing));
    lemma_top_listing_is_line(rows, cabinet, limit, listing);
    assert(listing =~= line_rows(cabinet, line));
}

} // verus!
