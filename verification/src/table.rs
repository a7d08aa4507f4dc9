//! What the rows of the table mean: the constraints that the table enforces,
//! the density of a cabinet's positions, and the line that dense rows stand
//! for.

use vstd::prelude::*;

use crate::cabinet::CabinetId;
use crate::entry::Row;

verus! {

/// A condition on a position, by which rows are picked for a deletion or a
/// shift.
#[derive(Clone, Copy, Debug, PartialEq, Eq, Structural)]
pub enum PositionFilter {
    /// Positions greater than the bound.
    Above(i32),
    /// Positions smaller than the bound.
    Below(i32),
    /// The one position given.
    Exactly(i32),
    /// Positions up to the bound, the bound included.
    UpTo(i32),
}

impl PositionFilter {
    /// Whether the condition holds of a position.
    pub open spec fn admits(self, position: int) -> bool {
        match self {
            PositionFilter::Above(bound) => position > bound,
            PositionFilter::Below(bound) => position < bound,
            PositionFilter::Exactly(wanted) => position == wanted,
            PositionFilter::UpTo(bound) => position <= bound,
        }
    }

    /// Whether the condition holds of a position.
    pub fn matches(&self, position: i32) -> (r: bool)
        ensures
            r == self.admits(position as int),
    {
        match self {
            PositionFilter::Above(bound) => position > *bound,
            PositionFilter::Below(bound) => position < *bound,
            PositionFilter::Exactly(wanted) => position == *wanted,
            PositionFilter::UpTo(bound) => position <= *bound,
        }
    }
}

/// Whether a row is the entry of `name` at `cabinet`.
pub open spec fn is_entry(row: Row, cabinet: CabinetId, name: Seq<char>) -> bool {
    row.cabinet == cabinet && row.name == name
}

/// Whether a row of `cabinet` holds `position`.
pub open spec fn is_at(row: Row, cabinet: CabinetId, position: int) -> bool {
    row.cabinet == cabinet && row.position == position
}

/// Whether `name` has a row at `cabinet`.
pub open spec fn has_entry(rows: Seq<Row>, cabinet: CabinetId, name: Seq<char>) -> bool {
    exists|i: int| 0 <= i < rows.len() && is_entry(#[trigger] rows[i], cabinet, name)
}

/// Whether some row of `cabinet` holds `position`.
pub open spec fn has_position(rows: Seq<Row>, cabinet: CabinetId, position: int) -> bool {
    exists|i: int| 0 <= i < rows.len() && is_at(#[trigger] rows[i], cabinet, position)
}

/// Whether `cabinet` has any row at all.
pub open spec fn has_rows(rows: Seq<Row>, cabinet: CabinetId) -> bool {
    exists|i: int| 0 <= i < rows.len() && (#[trigger] rows[i]).cabinet == cabinet
}

/// The index of the row of `name` at `cabinet`.
pub open spec fn entry_index(rows: Seq<Row>, cabinet: CabinetId, name: Seq<char>) -> int {
    choose|i: int| 0 <= i < rows.len() && is_entry(#[trigger] rows[i], cabinet, name)
}

/// The position that `name` holds at `cabinet`.
pub open spec fn position_of(rows: Seq<Row>, cabinet: CabinetId, name: Seq<char>) -> int {
    rows[entry_index(rows, cabinet, name)].position
}

/// No two rows of one cabinet hold the same name.
pub open spec fn names_unique(rows: Seq<Row>) -> bool {
    forall|i: int, j: int|
        #![trigger rows[i], rows[j]]
        0 <= i < rows.len() && 0 <= j < rows.len() && i != j && rows[i].cabinet
            == rows[j].cabinet ==> rows[i].name != rows[j].name
}

/// No two rows of one cabinet hold the same position.
pub open spec fn positions_unique(rows: Seq<Row>) -> bool {
    forall|i: int, j: int|
        #![trigger rows[i], rows[j]]
        0 <= i < rows.len() && 0 <= j < rows.len() && i != j && rows[i].cabinet
            == rows[j].cabinet ==> rows[i].position != rows[j].position
}

/// Every position can be stored in a row, as a 32-bit signed integer.
pub open spec fn positions_fit(rows: Seq<Row>) -> bool {
    forall|i: int| 0 <= i < rows.len() ==> i32::MIN <= (#[trigger] rows[i]).position <= i32::MAX
}

/// The two constraints that the table enforces at every moment.
pub open spec fn constraints_hold(rows: Seq<Row>) -> bool {
    names_unique(rows) && positions_unique(rows)
}

/// Whether `top` is the greatest position held at `cabinet`.
pub open spec fn is_max_position(rows: Seq<Row>, cabinet: CabinetId, top: int) -> bool {
    &&& has_position(rows, cabinet, top)
    &&& forall|i: int|
        0 <= i < rows.len() && (#[trigger] rows[i]).cabinet == cabinet ==> rows[i].position <= top
}

/// The rows of `cabinet`, in the order in which the table holds them.
pub open spec fn rows_at(rows: Seq<Row>, cabinet: CabinetId) -> Seq<Row> {
    rows.filter(|row: Row| row.cabinet == cabinet)
}

/// The entry that stands at index `at` of the line of `cabinet`: the name
/// found there, at position `at + 1`.
pub open spec fn line_row(cabinet: CabinetId, line: Seq<Seq<char>>, at: int) -> Row {
    Row { cabinet, name: line[at], position: at + 1 }
}

/// The rows of `cabinet` are exactly the entries of `line`: every row of the
/// cabinet holds a position in `1..=line.len()` and the name that the line
/// has there, and every place of the line has its row. So the positions held
/// at the cabinet are `1..=line.len()`, without a gap.
pub open spec fn holds_line(rows: Seq<Row>, cabinet: CabinetId, line: Seq<Seq<char>>) -> bool {
    &&& forall|i: int|
        0 <= i < rows.len() && (#[trigger] rows[i]).cabinet == cabinet ==> 1 <= rows[i].position
            <= line.len() && line[rows[i].position - 1] == rows[i].name
    &&& forall|at: int|
        0 <= at < line.len() ==> rows.contains(#[trigger] line_row(cabinet, line, at))
}

/// The positions held at `cabinet` are dense: they are exactly `1..=k` for
/// the number `k` of its rows, so that the rows stand for a line.
pub open spec fn dense(rows: Seq<Row>, cabinet: CabinetId) -> bool {
    exists|line: Seq<Seq<char>>| #[trigger] holds_line(rows, cabinet, line)
}

/// The positions of every cabinet are dense.
pub open spec fn well_ordered(rows: Seq<Row>) -> bool {
    forall|cabinet: CabinetId| #[trigger] dense(rows, cabinet)
}

/// The line of `cabinet`: the names in the order of their positions, the
/// name at position `p` standing at index `p - 1`.
pub open spec fn queue(rows: Seq<Row>, cabinet: CabinetId) -> Seq<Seq<char>> {
    choose|line: Seq<Seq<char>>| #[trigger] holds_line(rows, cabinet, line)
}

/// The entries of a line as rows: `line[i]` at position `i + 1`.
pub open spec fn line_rows(cabinet: CabinetId, line: Seq<Seq<char>>) -> Seq<Row> {
    Seq::new(line.len(), |at: int| line_row(cabinet, line, at))
}

/// `listing` holds rows of `cabinet` only, by strictly ascending position.
pub open spec fn lists_in_order(rows: Seq<Row>, cabinet: CabinetId, listing: Seq<Row>) -> bool {
    &&& forall|j: int|
        0 <= j < listing.len() ==> rows.contains(#[trigger] listing[j]) && listing[j].cabinet
            == cabinet
    &&& forall|a: int, b: int|
        0 <= a < b < listing.len() ==> (#[trigger] listing[a]).position
            < (#[trigger] listing[b]).position
}

/// `listing` holds all the rows of `cabinet`, by ascending position.
pub open spec fn is_listing(rows: Seq<Row>, cabinet: CabinetId, listing: Seq<Row>) -> bool {
    &&& lists_in_order(rows, cabinet, listing)
    &&& forall|i: int|
        0 <= i < rows.len() && (#[trigger] rows[i]).cabinet == cabinet ==> listing.contains(rows[i])
}

/// `listing` holds the first rows of `cabinet` by ascending position: all of
/// them where there are at most `limit`, and else the `limit` rows with the
/// smallest positions.
pub open spec fn is_top_listing(
    rows: Seq<Row>,
    cabinet: CabinetId,
    limit: int,
    listing: Seq<Row>,
) -> bool {
    &&& lists_in_order(rows, cabinet, listing)
    &&& listing.len() <= limit
    &&& forall|i: int|
        0 <= i < rows.len() && (#[trigger] rows[i]).cabinet == cabinet && !listing.contains(rows[i])
            ==> listing.len() == limit
    &&& forall|i: int, j: int|
        0 <= i < rows.len() && (#[trigger] rows[i]).cabinet == cabinet && !listing.contains(rows[i])
            && 0 <= j < listing.len() ==> (#[trigger] listing[j]).position < rows[i].position
}

/// The rows that are left when the entry of `name` at `cabinet` is deleted.
pub open spec fn without_entry(rows: Seq<Row>, cabinet: CabinetId, name: Seq<char>) -> Seq<Row> {
    rows.filter(|row: Row| !is_entry(row, cabinet, name))
}

/// The rows that are left when the rows of `cabinet` whose position meets
/// `filter` are deleted.
pub open spec fn without_positions(
    rows: Seq<Row>,
    cabinet: CabinetId,
    filter: PositionFilter,
) -> Seq<Row> {
    rows.filter(|row: Row| !(row.cabinet == cabinet && filter.admits(row.position)))
}

/// A row after a shift: `delta` is added to its position if it belongs to
/// `cabinet` and its position meets `filter`.
pub open spec fn shift_row(
    row: Row,
    cabinet: CabinetId,
    filter: PositionFilter,
    delta: int,
) -> Row {
    if row.cabinet == cabinet && filter.admits(row.position) {
        Row { position: row.position + delta, ..row }
    } else {
        row
    }
}

/// The rows after a shift, each in its place.
pub open spec fn shifted(
    rows: Seq<Row>,
    cabinet: CabinetId,
    filter: PositionFilter,
    delta: int,
) -> Seq<Row> {
    Seq::new(rows.len(), |i: int| shift_row(rows[i], cabinet, filter, delta))
}

/// Whether every position that a shift produces can be stored.
pub open spec fn shift_fits(
    rows: Seq<Row>,
    cabinet: CabinetId,
    filter: PositionFilter,
    delta: int,
) -> bool {
    forall|i: int|
        0 <= i < rows.len() ==> i32::MIN <= (#[trigger] shift_row(
            rows[i],
            cabinet,
            filter,
            delta,
        )).position <= i32::MAX
}

} // verus!
