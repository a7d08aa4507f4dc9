//! The changes that a transition makes to the table, one statement each.

use vstd::prelude::*;

use crate::cabinet::CabinetId;
use crate::entry::Row;
use crate::error::Error;
use crate::table::{
    has_entry, has_position, positions_unique, shift_fits, shifted, without_entry,
    without_positions, PositionFilter,
};

verus! {

/// One change to the table. A transition is a short list of them, carried
/// out in order within one transaction.
#[derive(Clone, Debug, PartialEq, Eq)]
pub enum StoreAction {
    /// Add the row of `name` at `cabinet` with `position`.
    Insert { cabinet: CabinetId, name: String, position: i32 },
    /// Delete the row of `name` at `cabinet`.
    DeleteOne { cabinet: CabinetId, name: String },
    /// Delete the rows of `cabinet` whose position meets `filter`.
    DeleteWhere { cabinet: CabinetId, filter: PositionFilter },
    /// Add `delta` to the position of the rows of `cabinet` whose position
    /// meets `filter`, in one statement.
    Shift { cabinet: CabinetId, filter: PositionFilter, delta: i32 },
}

/// A change to the table as specifications see it.
pub ghost enum Step {
    Insert { cabinet: CabinetId, name: Seq<char>, position: int },
    DeleteOne { cabinet: CabinetId, name: Seq<char> },
    DeleteWhere { cabinet: CabinetId, filter: PositionFilter },
    Shift { cabinet: CabinetId, filter: PositionFilter, delta: int },
}

impl View for StoreAction {
    type V = Step;

    open spec fn view(&self) -> Step {
        match *self {
            StoreAction::Insert { cabinet, name, position } => Step::Insert {
                cabinet,
                name: name@,
                position: position as int,
            },
            StoreAction::DeleteOne { cabinet, name } => Step::DeleteOne { cabinet, name: name@ },
            StoreAction::DeleteWhere { cabinet, filter } => Step::DeleteWhere { cabinet, filter },
            StoreAction::Shift { cabinet, filter, delta } => Step::Shift {
                cabinet,
                filter,
                delta: delta as int,
            },
        }
    }
}

/// The steps that a list of actions stands for, in the same order.
pub open spec fn steps_of(actions: Seq<StoreAction>) -> Seq<Step> {
    Seq::new(actions.len(), |i: int| actions[i]@)
}

/// What one step does to the rows of the table: the rows that it leaves, or
/// the failure with which the table refuses it. An insertion is refused with
/// `Conflict` where the name or the position is taken. A shift is refused
/// with `Internal` where a new position cannot be stored, and else with
/// `Conflict` where two rows of a cabinet would hold the same position.
pub open spec fn effect(rows: Seq<Row>, step: Step) -> Result<Seq<Row>, Error> {
    match step {
        Step::Insert { cabinet, name, position } => {
            if has_entry(rows, cabinet, name) || has_position(rows, cabinet, position) {
                Err(Error::Conflict)
            } else {
                Ok(rows.push(Row { cabinet, name, position }))
            }
        },
        Step::DeleteOne { cabinet, name } => Ok(without_entry(rows, cabinet, name)),
        Step::DeleteWhere { cabinet, filter } => Ok(without_positions(rows, cabinet, filter)),
        Step::Shift { cabinet, filter, delta } => {
            if !shift_fits(rows, cabinet, filter, delta) {
                Err(Error::Internal)
            } else if !positions_unique(shifted(rows, cabinet, filter, delta)) {
                Err(Error::Conflict)
            } else {
                Ok(shifted(rows, cabinet, filter, delta))
            }
        },
    }
}

/// The rows that a list of steps leaves when every step is accepted, and
/// `None` when one of them is refused.
pub open spec fn applied(rows: Seq<Row>, steps: Seq<Step>) -> Option<Seq<Row>>
    decreases steps.len(),
{
    if steps.len() == 0 {
        Some(rows)
    } else {
        match effect(rows, steps[0]) {
            Ok(next) => applied(next, steps.skip(1)),
            Err(_) => None,
        }
    }
}

} // verus!
