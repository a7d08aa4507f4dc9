//! The laws of the waiting lines: what holds of every line that the engine
//! keeps, and how the transitions relate to each other.

use vstd::prelude::*;

use crate::action::{applied, effect, Step};
use crate::cabinet::CabinetId;
use crate::engine::QueueEngine;
use crate::entry::Row;
use crate::error::Error;
use crate::lemmas::{
    lemma_filter_rows, lemma_holds_line_by_rows, lemma_line_names_distinct,
    lemma_position_in_line, lemma_row_in_line,
};
use crate::line::{
    accepts, after_join, after_leave, after_next, after_postpone, join_all, run, step, Operation,
};
use crate::plan::{
    join_steps, leave_steps, lemma_applied_one, lemma_applied_two, position_behind,
};
use crate::table::{
    constraints_hold, dense, has_entry, has_position, has_rows, holds_line, is_at, is_entry,
    is_max_position, line_row, positions_fit, positions_unique, queue, rows_at, shift_fits,
    shift_row, shifted, well_ordered, without_entry, PositionFilter,
};
use crate::transitions::lemma_join_steps;

verus! {

/// Density: in a well-formed engine the rows of a cabinet hold exactly the
/// positions `1..=k`, each of them once, where `k` is both the length of the
/// cabinet's line and the number of its rows.
pub proof fn law_positions_dense(engine: QueueEngine, cabinet: CabinetId)
    requires
        engine.wf(),
    ensures
        forall|i: int|
            0 <= i < engine.rows().len() && (#[trigger] engine.rows()[i]).cabinet == cabinet ==> 1
                <= engine.rows()[i].position <= engine.queue(cabinet).len(),
        forall|p: int|
            1 <= p <= engine.queue(cabinet).len() ==> #[trigger] has_position(
                engine.rows(),
                cabinet,
                p,
            ),
        positions_unique(engine.rows()),
        rows_at(engine.rows(), cabinet).len() == engine.queue(cabinet).len(),
{
    let rows = engine.rows();
    let line = engine.queue(cabinet);
    assert(dense(rows, cabinet));
    assert forall|p: int| 1 <= p <= line.len() implies #[trigger] has_position(
        rows,
        cabinet,
        p,
    ) by {
        lemma_position_in_line(rows, cabinet, line, p);
    }
    lemma_row_count(rows, cabinet, line);
}

/// A cabinet has as many rows as its line has names.
proof fn lemma_row_count(rows: Seq<Row>, cabinet: CabinetId, line: Seq<Seq<char>>)
    requires
        positions_unique(rows),
        holds_line(rows, cabinet, line),
    ensures
        rows_at(rows, cabinet).len() == line.len(),
    decreases line.len(),
{
    let here = |row: Row| row.cabinet == cabinet;
    lemma_filter_rows(rows, here);
    if line.len() == 0 {
        let found = rows.filter(here);
        if found.len() > 0 {
            assert(found.contains(found[0]));
            lemma_row_in_line(rows, cabinet, line, found[0]);
        }
    } else {
        let k = line.len() as int;
        let last = line_row(cabinet, line, k - 1);
        assert(rows.contains(last));
        let at = choose|at: int| 0 <= at < rows.len() && rows[at] == last;
        let rest = rows.remove(at);
        let shorter = line.drop_last();
        assert forall|i: int, j: int|
            #![trigger rest[i], rest[j]]
            0 <= i < rest.len() && 0 <= j < rest.len() && i != j && rest[i].cabinet
                == rest[j].cabinet implies rest[i].position != rest[j].position by {
            let a = if i < at {
                i
            } else {
                i + 1
            };
            let b = if j < at {
                j
            } else {
                j + 1
            };
            assert(rest[i] == rows[a] && rest[j] == rows[b]);
        }
        assert forall|row: Row| #[trigger] rest.contains(row) && row.cabinet == cabinet implies 1
            <= row.position <= shorter.len() && shorter[row.position - 1] == row.name by {
            let i = choose|i: int| 0 <= i < rest.len() && rest[i] == row;
            let a = if i < at {
                i
            } else {
                i + 1
            };
            assert(rest[i] == rows[a]);
            assert(rows[a].cabinet == rows[at].cabinet);
            assert(rows[a].position != rows[at].position);
        }
        assert forall|to: int| 0 <= to < shorter.len() implies rest.contains(
            #[trigger] line_row(cabinet, shorter, to),
        ) by {
            let row = line_row(cabinet, line, to);
            assert(rows.contains(row));
            let a = choose|a: int| 0 <= a < rows.len() && rows[a] == row;
            let i = if a < at {
                a
            } else {
                a - 1
            };
            assert(rest[i] == row);
        }
        lemma_holds_line_by_rows(rest, cabinet, shorter);
        lemma_row_count(rest, cabinet, shorter);
        let front = rows.take(at);
        let back = rows.skip(at + 1);
        assert(rows =~= front + seq![last] + back);
        assert(rest =~= front + back);
        Seq::filter_distributes_over_add(front + seq![last], back, here);
        Seq::filter_distributes_over_add(front, seq![last], here);
        Seq::filter_distributes_over_add(front, back, here);
        assert(seq![last].filter(here) =~= seq![last]) by {
            Seq::<Row>::empty().lemma_filter_push(last, here);
            assert(Seq::<Row>::empty().push(last) =~= seq![last]);
            reveal(Seq::filter);
        }
    }
}

/// Uniqueness: in a well-formed engine no two rows share a cabinet and a
/// name, and no line holds a name twice.
pub proof fn law_names_distinct(engine: QueueEngine, cabinet: CabinetId)
    requires
        engine.wf(),
    ensures
        forall|i: int, j: int|
            #![trigger engine.rows()[i], engine.rows()[j]]
            0 <= i < engine.rows().len() && 0 <= j < engine.rows().len() && i != j
                && engine.rows()[i].cabinet == engine.rows()[j].cabinet ==> engine.rows()[i].name
                != engine.rows()[j].name,
        engine.queue(cabinet).no_duplicates(),
{
    assert(dense(engine.rows(), cabinet));
    lemma_line_names_distinct(engine.rows(), cabinet, engine.queue(cabinet));
}

/// A line without repeated names has none after any operation, accepted or
/// rejected.
pub proof fn law_step_keeps_names_distinct(line: Seq<Seq<char>>, op: Operation)
    requires
        line.no_duplicates(),
    ensures
        step(line, op).no_duplicates(),
{
    if accepts(line, op) {
        match op {
            Operation::Join(name) => {
                let after = after_join(line, name);
                assert forall|i: int, j: int|
                    0 <= i < after.len() && 0 <= j < after.len() && i != j implies after[i]
                    != after[j] by {
                    if i < line.len() {
                        assert(after[i] == line[i]);
                    }
                    if j < line.len() {
                        assert(after[j] == line[j]);
                    }
                }
            },
            Operation::Leave(name) => {
                let at = line.index_of(name);
                let after = after_leave(line, name);
                assert forall|i: int, j: int|
                    0 <= i < after.len() && 0 <= j < after.len() && i != j implies after[i]
                    != after[j] by {
                    let a = if i < at {
                        i
                    } else {
                        i + 1
                    };
                    let b = if j < at {
                        j
                    } else {
                        j + 1
                    };
                    assert(after[i] == line[a] && after[j] == line[b]);
                }
            },
            Operation::Next(n) => {
                let after = after_next(line, n);
                let count = line.len() - after.len();
                assert forall|i: int, j: int|
                    0 <= i < after.len() && 0 <= j < after.len() && i != j implies after[i]
                    != after[j] by {
                    assert(after[i] == line[i + count] && after[j] == line[j + count]);
                }
            },
            Operation::Postpone(name) => {
                let at = line.index_of(name);
                let after = after_postpone(line, name);
                assert(line[at] == name);
                assert(at + 1 < line.len()) by {
                    if at + 1 >= line.len() {
                        assert(line.last() == name);
                    }
                }
                assert forall|i: int, j: int|
                    0 <= i < after.len() && 0 <= j < after.len() && i != j implies after[i]
                    != after[j] by {
                    let a = if i == at {
                        at + 1
                    } else if i == at + 1 {
                        at
                    } else {
                        i
                    };
                    let b = if j == at {
                        at + 1
                    } else if j == at + 1 {
                        at
                    } else {
                        j
                    };
                    assert(after[i] == line[a] && after[j] == line[b]);
                }
            },
        }
    }
}

/// A line without repeated names has none after any sequence of
/// operations.
pub proof fn law_run_keeps_names_distinct(line: Seq<Seq<char>>, ops: Seq<Operation>)
    requires
        line.no_duplicates(),
    ensures
        run(line, ops).no_duplicates(),
    decreases ops.len(),
{
    if ops.len() > 0 {
        law_run_keeps_names_distinct(line, ops.drop_last());
        law_step_keeps_names_distinct(run(line, ops.drop_last()), ops.last());
    }
}

/// Join and leave are inverse: a name that joins a line and then leaves it
/// leaves the line as it was, every name at its old place.
pub proof fn law_join_then_leave(line: Seq<Seq<char>>, name: Seq<char>)
    requires
        !line.contains(name),
    ensures
        after_join(line, name).contains(name),
        after_leave(after_join(line, name), name) == line,
{
    let joined = after_join(line, name);
    assert(joined[line.len() as int] == name);
    let at = joined.index_of(name);
    if at < line.len() {
        assert(line[at] == name);
    }
    assert(joined.remove(at) =~= line);
}

/// Join and leave are inverse on the table as well: where a join is
/// accepted, carrying out its steps and then the steps of the leave of the
/// same name leaves exactly the rows that were there.
pub proof fn law_join_then_leave_rows(
    rows: Seq<Row>,
    cabinet: CabinetId,
    name: Seq<char>,
    top: Option<i32>,
)
    requires
        constraints_hold(rows),
        positions_fit(rows),
        well_ordered(rows),
        !has_entry(rows, cabinet, name),
        match top {
            Some(last) => last < i32::MAX && is_max_position(rows, cabinet, last as int),
            None => !has_rows(rows, cabinet),
        },
    ensures
        ({
            let position = position_behind(top) as i32;
            let joined = applied(rows, join_steps(cabinet, name, top));
            &&& joined is Some
            &&& applied(joined->0, leave_steps(cabinet, name, position)) == Some(rows)
        }),
{
    let position = position_behind(top) as i32;
    let added = Row { cabinet, name, position: position as int };
    let joined = rows.push(added);
    let keep = |row: Row| !is_entry(row, cabinet, name);
    let filter = PositionFilter::Above(position);
    let line = queue(rows, cabinet);
    assert(dense(rows, cabinet));
    lemma_join_steps(rows, cabinet, name, top);
    joined.lemma_filter_push(added, keep);
    rows.lemma_filter_push(added, keep);
    lemma_filter_keeps_all(rows, keep);
    assert(without_entry(joined, cabinet, name) == rows);
    let back = shifted(rows, cabinet, filter, -1);
    assert forall|i: int| 0 <= i < rows.len() implies #[trigger] back[i] == rows[i] by {
        if rows[i].cabinet == cabinet {
            assert(rows[i].position <= line.len());
        }
    }
    assert(back =~= rows);
    assert(shift_fits(rows, cabinet, filter, -1)) by {
        assert forall|i: int| 0 <= i < rows.len() implies i32::MIN <= (#[trigger] shift_row(
            rows[i],
            cabinet,
            filter,
            -1,
        )).position <= i32::MAX by {
            assert(shift_row(rows[i], cabinet, filter, -1) == back[i]);
        }
    }
    let delete = Step::DeleteOne { cabinet, name };
    let shift = Step::Shift { cabinet, filter, delta: -1 };
    lemma_applied_two(joined, delete, shift);
    lemma_applied_one(rows, shift);
}

/// A lost race is detected: when two joins were planned from the same
/// reading of the table and the first has been carried out, the table
/// refuses the second with `Conflict`, whatever its name, and so keeps its
/// rows as the first join left them.
pub proof fn law_stale_join_is_refused(
    rows: Seq<Row>,
    cabinet: CabinetId,
    first: Seq<char>,
    second: Seq<char>,
    top: Option<i32>,
)
    requires
        constraints_hold(rows),
        well_ordered(rows),
        !has_entry(rows, cabinet, first),
        match top {
            Some(last) => last < i32::MAX && is_max_position(rows, cabinet, last as int),
            None => !has_rows(rows, cabinet),
        },
    ensures
        ({
            let joined = applied(rows, join_steps(cabinet, first, top));
            let late = Step::Insert { cabinet, name: second, position: position_behind(top) };
            &&& joined is Some
            &&& effect(joined->0, late) == Err::<Seq<Row>, Error>(Error::Conflict)
            &&& applied(joined->0, join_steps(cabinet, second, top)) is None
        }),
{
    let added = Row { cabinet, name: first, position: position_behind(top) };
    let joined = rows.push(added);
    let late = Step::Insert { cabinet, name: second, position: position_behind(top) };
    lemma_join_steps(rows, cabinet, first, top);
    assert(is_at(joined[rows.len() as int], cabinet, position_behind(top)));
    lemma_applied_one(joined, late);
}

/// A deletion that no row matches leaves the rows as they are.
proof fn lemma_filter_keeps_all(rows: Seq<Row>, keep: spec_fn(Row) -> bool)
    requires
        forall|i: int| 0 <= i < rows.len() ==> keep(#[trigger] rows[i]),
    ensures
        rows.filter(keep) == rows,
    decreases rows.len(),
{
    reveal(Seq::filter);
    if rows.len() > 0 {
        let front = rows.drop_last();
        assert forall|i: int| 0 <= i < front.len() implies keep(#[trigger] front[i]) by {
            assert(front[i] == rows[i]);
        }
        lemma_filter_keeps_all(front, keep);
        assert(front.push(rows.last()) =~= rows);
    }
}

/// Joins in any order: when players with distinct names join an empty line
/// one after the other, in whatever order their requests complete, every
/// join is accepted and the line holds exactly those names in that order, so
/// that `n` players hold the positions `1..=n`.
pub proof fn law_joins_fill_line(names: Seq<Seq<char>>)
    requires
        names.no_duplicates(),
    ensures
        join_all(Seq::empty(), names) == names,
        forall|i: int|
            0 <= i < names.len() ==> !(#[trigger] join_all(Seq::empty(), names.take(i))).contains(
                names[i],
            ),
    decreases names.len(),
{
    let empty = Seq::<Seq<char>>::empty();
    if names.len() == 0 {
        assert(join_all(empty, names) =~= names);
    } else {
        let front = names.drop_last();
        assert forall|i: int, j: int|
            0 <= i < front.len() && 0 <= j < front.len() && i != j implies front[i]
            != front[j] by {
            assert(front[i] == names[i] && front[j] == names[j]);
        }
        law_joins_fill_line(front);
        assert(front.push(names.last()) =~= names);
        assert forall|i: int| 0 <= i < names.len() implies !(#[trigger] join_all(
            empty,
            names.take(i),
        )).contains(names[i]) by {
            if i < front.len() {
                assert(names.take(i) =~= front.take(i));
                assert(front[i] == names[i]);
            } else {
                assert(names.take(i) =~= front);
                if front.contains(names[i]) {
                    let j = choose|j: int| 0 <= j < front.len() && front[j] == names[i];
                    assert(names[j] == names[i]);
                }
            }
        }
    }
}

} // verus!
