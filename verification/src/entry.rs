//! One waiting player, and the row that stands for it in specifications.

use vstd::prelude::*;

use crate::cabinet::CabinetId;

verus! {

/// A row of the table as specifications see it: the name as a sequence of
/// characters and the position as a mathematical integer.
pub ghost struct Row {
    pub cabinet: CabinetId,
    pub name: Seq<char>,
    pub position: int,
}

/// One player waiting at one cabinet.
#[derive(Clone, Debug, PartialEq, Eq)]
pub struct QueueEntry {
    /// The cabinet at which the player waits.
    pub cabinet_id: CabinetId,
    /// The player's name, distinct from the other names at that cabinet.
    pub name: String,
    /// The player's rank in the line, counted from 1.
    pub position: i32,
}

impl View for QueueEntry {
    type V = Row;

    open spec fn view(&self) -> Row {
        Row { cabinet: self.cabinet_id, name: self.name@, position: self.position as int }
    }
}

impl QueueEntry {
    /// The entry of `name` at `cabinet_id` with the given position.
    pub fn new(cabinet_id: CabinetId, name: &str, position: i32) -> (entry: QueueEntry)
        ensures
            entry@ == (Row { cabinet: cabinet_id, name: name@, position: position as int }),
    {
        QueueEntry { cabinet_id, name: name.to_owned(), position }
    }

    /// A copy of the entry, equal to it in every field.
    pub fn duplicate(&self) -> (copy: QueueEntry)
        ensures
            copy@ == self@,
    {
        QueueEntry { cabinet_id: self.cabinet_id, name: self.name.clone(), position: self.position }
    }
}

/// The rows that a list of entries stands for, in the same order.
pub open spec fn rows_of(entries: Seq<QueueEntry>) -> Seq<Row> {
    Seq::new(entries.len(), |i: int| entries[i]@)
}

} // verus!
