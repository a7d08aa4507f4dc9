//! The four transitions on one waiting line, as functions on the sequence of
//! its names. The name at index `i` holds position `i + 1`, so a line is
//! dense and ordered by construction.

use vstd::prelude::*;

verus! {

/// The number of players that a request for `n` serves from a line: `n`,
/// or all of them where the line is shorter.
pub open spec fn served_count(line: Seq<Seq<char>>, n: int) -> int {
    if n <= line.len() {
        n
    } else {
        line.len() as int
    }
}

/// The line after `name` has joined at its end.
pub open spec fn after_join(line: Seq<Seq<char>>, name: Seq<char>) -> Seq<Seq<char>> {
    line.push(name)
}

/// The line after `name` has left: those behind it have moved up by one.
pub open spec fn after_leave(line: Seq<Seq<char>>, name: Seq<char>) -> Seq<Seq<char>> {
    line.remove(line.index_of(name))
}

/// The players that a request for `n` serves: the first of the line.
pub open spec fn served(line: Seq<Seq<char>>, n: int) -> Seq<Seq<char>> {
    line.take(served_count(line, n))
}

/// The line after its first `n` players have been served.
pub open spec fn after_next(line: Seq<Seq<char>>, n: int) -> Seq<Seq<char>> {
    line.skip(served_count(line, n))
}

/// The line after `name` has let the player behind it pass.
pub open spec fn after_postpone(line: Seq<Seq<char>>, name: Seq<char>) -> Seq<Seq<char>> {
    let at = line.index_of(name);
    line.update(at, line[at + 1]).update(at + 1, name)
}

/// Whether `name` is the last of the line.
pub open spec fn is_last(line: Seq<Seq<char>>, name: Seq<char>) -> bool {
    line.len() > 0 && line.last() == name
}

/// An operation on one line.
pub ghost enum Operation {
    /// The name joins at the end.
    Join(Seq<char>),
    /// The name leaves.
    Leave(Seq<char>),
    /// The first players are served, as many as the count says.
    Next(int),
    /// The name lets the player behind it pass.
    Postpone(Seq<char>),
}

/// Whether the line accepts an operation. A join is rejected where the name
/// already waits or the line has reached the greatest position that can be
/// stored, a leave where the name does not wait, a serving where the count is
/// smaller than one, and a postponement where the name does not wait or is
/// the last.
pub open spec fn accepts(line: Seq<Seq<char>>, op: Operation) -> bool {
    match op {
        Operation::Join(name) => !line.contains(name) && line.len() < i32::MAX,
        Operation::Leave(name) => line.contains(name),
        Operation::Next(n) => n >= 1,
        Operation::Postpone(name) => line.contains(name) && !is_last(line, name),
    }
}

/// The line after an operation: changed as the operation says where the
/// line accepts it, and unchanged where it is rejected.
pub open spec fn step(line: Seq<Seq<char>>, op: Operation) -> Seq<Seq<char>> {
    if !accepts(line, op) {
        line
    } else {
        match op {
            Operation::Join(name) => after_join(line, name),
            Operation::Leave(name) => after_leave(line, name),
            Operation::Next(n) => after_next(line, n),
            Operation::Postpone(name) => after_postpone(line, name),
        }
    }
}

/// The line after a sequence of operations, each applied to what the one
/// before it left.
pub open spec fn run(line: Seq<Seq<char>>, ops: Seq<Operation>) -> Seq<Seq<char>>
    decreases ops.len(),
{
    if ops.len() == 0 {
        line
    } else {
        step(run(line, ops.drop_last()), ops.last())
    }
}

/// The line after the names have joined one after the other.
pub open spec fn join_all(line: Seq<Seq<char>>, names: Seq<Seq<char>>) -> Seq<Seq<char>>
    decreases names.len(),
{
    if names.len() == 0 {
        line
    } else {
        after_join(join_all(line, names.drop_last()), names.last())
    }
}

} // verus!
