//! The plan of each transition: what is checked before anything is written,
//! and the changes that are then made to the table, in order.
//!
//! A plan is made from what was read of the table within the transaction:
//! whether the name waits, its position, the greatest position of the
//! cabinet. Whoever holds the table carries the plan out, step by step, and
//! rolls the transaction back if a step is refused.

use vstd::prelude::*;

use crate::action::{applied, effect, steps_of, Step, StoreAction};
use crate::cabinet::CabinetId;
use crate::entry::Row;
use crate::error::Error;
use crate::table::PositionFilter;

verus! {

/// The position behind the greatest position `top` of a cabinet: the first
/// one where the cabinet has no row.
pub open spec fn position_behind(top: Option<i32>) -> int {
    match top {
        Some(position) => position + 1,
        None => 1,
    }
}

/// The steps of a join: one insertion behind the last position.
pub open spec fn join_steps(cabinet: CabinetId, name: Seq<char>, top: Option<i32>) -> Seq<Step> {
    seq![Step::Insert { cabinet, name, position: position_behind(top) }]
}

/// The steps of a leave from `position`: the row is deleted, and the rows
/// behind it are shifted down by one.
pub open spec fn leave_steps(cabinet: CabinetId, name: Seq<char>, position: i32) -> Seq<Step> {
    seq![
        Step::DeleteOne { cabinet, name },
        Step::Shift { cabinet, filter: PositionFilter::Above(position), delta: -1 },
    ]
}

/// The steps that serve `n` players: the rows up to position `n` are
/// deleted, and the rows behind them are shifted down by `n`.
pub open spec fn next_steps(cabinet: CabinetId, n: i32) -> Seq<Step> {
    seq![
        Step::DeleteWhere { cabinet, filter: PositionFilter::UpTo(n) },
        Step::Shift { cabinet, filter: PositionFilter::Above(n), delta: -n },
    ]
}

/// The steps that postpone the player at `position`: its row is deleted, the
/// row behind it is shifted down by one, and the player is inserted again
/// one position further back.
pub open spec fn postpone_steps(cabinet: CabinetId, name: Seq<char>, position: i32) -> Seq<Step> {
    seq![
        Step::DeleteOne { cabinet, name },
        Step::Shift { cabinet, filter: PositionFilter::Exactly((position + 1) as i32), delta: -1 },
        Step::Insert { cabinet, name, position: position + 1 },
    ]
}

/// Checks a count of players to serve or to list: it must be at least one.
pub fn check_count(n: i32) -> (r: Result<(), Error>)
    ensures
        r == (if n >= 1 {
            Ok::<(), Error>(())
        } else {
            Err::<(), Error>(Error::InvalidArgument)
        }),
{
    if n < 1 {
        Err(Error::InvalidArgument)
    } else {
        Ok(())
    }
}

/// Plans a join. `queued` says whether the name already waits at the
/// cabinet, and `top` is the greatest position held there. Fails with
/// `AlreadyQueued` where the name waits, and else with `Internal` where no
/// position is left behind `top`.
pub fn plan_join(cabinet: CabinetId, name: &str, queued: bool, top: Option<i32>) -> (r: Result<
    Vec<StoreAction>,
    Error,
>)
    ensures
        match r {
            Ok(plan) => !queued && top != Some(i32::MAX) && steps_of(plan@) == join_steps(
                cabinet,
                name@,
                top,
            ),
            Err(e) => if queued {
                e == Error::AlreadyQueued
            } else {
                e == Error::Internal && top == Some(i32::MAX)
            },
        },
{
    if queued {
        return Err(Error::AlreadyQueued);
    }
    let position = match top {
        Some(last) => {
            if last == i32::MAX {
                return Err(Error::Internal);
            }
            last + 1
        },
        None => 1,
    };
    let mut plan: Vec<StoreAction> = Vec::new();
    plan.push(StoreAction::Insert { cabinet, name: name.to_owned(), position });
    assert(steps_of(plan@) =~= join_steps(cabinet, name@, top));
    Ok(plan)
}

/// Plans a leave. `position` is the position that the name holds at the
/// cabinet, or `None` where it does not wait there, which fails with
/// `NotQueued`.
pub fn plan_leave(cabinet: CabinetId, name: &str, position: Option<i32>) -> (r: Result<
    Vec<StoreAction>,
    Error,
>)
    ensures
        match r {
            Ok(plan) => position matches Some(held) && steps_of(plan@) == leave_steps(
                cabinet,
                name@,
                held,
            ),
            Err(e) => e == Error::NotQueued && position is None,
        },
{
    let held = match position {
        Some(held) => held,
        None => {
            return Err(Error::NotQueued);
        },
    };
    let mut plan: Vec<StoreAction> = Vec::new();
    plan.push(StoreAction::DeleteOne { cabinet, name: name.to_owned() });
    plan.push(StoreAction::Shift { cabinet, filter: PositionFilter::Above(held), delta: -1 });
    assert(steps_of(plan@) =~= leave_steps(cabinet, name@, held));
    Ok(plan)
}

/// Plans the serving of `n` players. Fails with `InvalidArgument` where `n`
/// is smaller than one.
pub fn plan_next(cabinet: CabinetId, n: i32) -> (r: Result<Vec<StoreAction>, Error>)
    ensures
        match r {
            Ok(plan) => n >= 1 && steps_of(plan@) == next_steps(cabinet, n),
            Err(e) => e == Error::InvalidArgument && n < 1,
        },
{
    if n < 1 {
        return Err(Error::InvalidArgument);
    }
    let mut plan: Vec<StoreAction> = Vec::new();
    plan.push(StoreAction::DeleteWhere { cabinet, filter: PositionFilter::UpTo(n) });
    plan.push(StoreAction::Shift { cabinet, filter: PositionFilter::Above(n), delta: -n });
    assert(steps_of(plan@) =~= next_steps(cabinet, n));
    Ok(plan)
}

/// Plans a postponement. `position` is the position that the name holds at
/// the cabinet and `top` the greatest position held there. Fails with
/// `NotQueued` where the name does not wait, and else with `AlreadyLast`
/// where no position behind it is held.
pub fn plan_postpone(
    cabinet: CabinetId,
    name: &str,
    position: Option<i32>,
    top: Option<i32>,
) -> (r: Result<Vec<StoreAction>, Error>)
    ensures
        match r {
            Ok(plan) => {
                &&& position matches Some(held)
                &&& top matches Some(last)
                &&& held < last
                &&& steps_of(plan@) == postpone_steps(cabinet, name@, held)
            },
            Err(e) => if position is None {
                e == Error::NotQueued
            } else {
                e == Error::AlreadyLast && !(top matches Some(last) && position->0 < last)
            },
        },
{
    let held = match position {
        Some(held) => held,
        None => {
            return Err(Error::NotQueued);
        },
    };
    let behind = match top {
        Some(last) => held < last,
        None => false,
    };
    if !behind {
        return Err(Error::AlreadyLast);
    }
    let mut plan: Vec<StoreAction> = Vec::new();
    plan.push(StoreAction::DeleteOne { cabinet, name: name.to_owned() });
    plan.push(
        StoreAction::Shift { cabinet, filter: PositionFilter::Exactly(held + 1), delta: -1 },
    );
    plan.push(StoreAction::Insert { cabinet, name: name.to_owned(), position: held + 1 });
    assert(steps_of(plan@) =~= postpone_steps(cabinet, name@, held));
    Ok(plan)
}

/// One step is accepted exactly if the table accepts it.
pub proof fn lemma_applied_one(rows: Seq<Row>, first: Step)
    ensures
        applied(rows, seq![first]) == match effect(rows, first) {
            Ok(next) => Some(next),
            Err(_) => None,
        },
{
    reveal_with_fuel(applied, 2);
    assert(seq![first].skip(1) =~= Seq::<Step>::empty());
}

/// Two steps are accepted exactly if the table accepts the first, and then
/// the second.
pub proof fn lemma_applied_two(rows: Seq<Row>, first: Step, second: Step)
    ensures
        applied(rows, seq![first, second]) == match effect(rows, first) {
            Ok(next) => applied(next, seq![second]),
            Err(_) => None,
        },
{
    reveal_with_fuel(applied, 2);
    assert(seq![first, second].skip(1) =~= seq![second]);
}

/// Three steps are accepted exactly if the table accepts the first, and then
/// the other two.
pub proof fn lemma_applied_three(rows: Seq<Row>, first: Step, second: Step, third: Step)
    ensures
        applied(rows, seq![first, second, third]) == match effect(rows, first) {
            Ok(next) => applied(next, seq![second, third]),
            Err(_) => None,
        },
{
    reveal_with_fuel(applied, 2);
    assert(seq![first, second, third].skip(1) =~= seq![second, third]);
}

} // verus!
