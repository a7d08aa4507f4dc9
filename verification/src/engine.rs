//! The queue operations engine: the four transitions on the waiting lines,
//! and the two ways to read a line.

use vstd::prelude::*;

use crate::action::{applied, steps_of, StoreAction};
use crate::cabinet::CabinetId;
use crate::entry::{rows_of, QueueEntry, Row};
use crate::error::Error;
use crate::lemmas::{
    lemma_empty_table, lemma_entry_in_line, lemma_place_of_entry, lemma_top_of_line,
};
use crate::line::{
    accepts, after_join, after_leave, after_next, after_postpone, is_last, served, served_count,
    step, Operation,
};
use crate::plan::{plan_join, plan_leave, plan_next, plan_postpone};
use crate::store::QueueStore;
use crate::table::{
    constraints_hold, dense, line_rows, positions_fit, queue, well_ordered,
};
use crate::transitions::{
    lemma_join_steps, lemma_leave, lemma_listing_is_line, lemma_next, lemma_postpone,
    lemma_top_listing_is_line,
};

verus! {

/// The waiting lines of all cabinets, with the transitions that keep every
/// line gap-free and free of repeated names.
pub struct QueueEngine {
    store: QueueStore,
}

impl QueueEngine {
    /// The rows of the table behind the lines.
    pub closed spec fn rows(&self) -> Seq<Row> {
        self.store@
    }

    /// The invariants of the lines: within a cabinet no name and no position
    /// occurs twice, and the positions of every cabinet are dense.
    pub open spec fn wf(&self) -> bool {
        &&& constraints_hold(self.rows())
        &&& positions_fit(self.rows())
        &&& well_ordered(self.rows())
    }

    /// The line of `cabinet`: its names in the order of their positions. The
    /// name at index `i` holds position `i + 1`.
    pub open spec fn queue(&self, cabinet: CabinetId) -> Seq<Seq<char>> {
        queue(self.rows(), cabinet)
    }

    /// An engine in which no player waits anywhere.
    pub fn new() -> (engine: QueueEngine)
        ensures
            engine.wf(),
            engine.rows() == Seq::<Row>::empty(),
            forall|cabinet: CabinetId|
                #[trigger] engine.queue(cabinet) == Seq::<Seq<char>>::empty(),
    {
        proof {
            lemma_empty_table();
        }
        QueueEngine { store: QueueStore::new() }
    }

    /// Whether `name` waits in the line of `cabinet`.
    pub fn is_name_in_queue(&self, cabinet: CabinetId, name: &str) -> (waits: bool)
        requires
            self.wf(),
        ensures
            waits == self.queue(cabinet).contains(name@),
    {
        proof {
            assert(dense(self.rows(), cabinet));
            lemma_entry_in_line(self.rows(), cabinet, self.queue(cabinet), name@);
        }
        self.store.contains_entry(cabinet, name)
    }

    /// The line of `cabinet` as entries, first to last: the entry at index
    /// `i` holds position `i + 1`.
    pub fn players(&self, cabinet: CabinetId) -> (entries: Vec<QueueEntry>)
        requires
            self.wf(),
        ensures
            rows_of(entries@) == line_rows(cabinet, self.queue(cabinet)),
    {
        let entries = self.store.list_by_cabinet(cabinet);
        proof {
            assert(dense(self.rows(), cabinet));
            lemma_listing_is_line(self.rows(), cabinet, rows_of(entries@));
        }
        entries
    }

    /// The first `n` entries of the line of `cabinet`, or all of them where
    /// the line is shorter. Fails with `InvalidArgument` where `n` is smaller
    /// than one.
    pub fn upcoming(&self, cabinet: CabinetId, n: i32) -> (r: Result<Vec<QueueEntry>, Error>)
        requires
            self.wf(),
        ensures
            match r {
                Ok(entries) => n >= 1 && rows_of(entries@) == line_rows(
                    cabinet,
                    served(self.queue(cabinet), n as int),
                ),
                Err(e) => e == Error::InvalidArgument && n < 1,
            },
    {
        match self.store.list_top_n(cabinet, n) {
            Ok(entries) => {
                proof {
                    let line = self.queue(cabinet);
                    assert(dense(self.rows(), cabinet));
                    lemma_top_listing_is_line(self.rows(), cabinet, n as int, rows_of(entries@));
                    assert(line_rows(cabinet, line).take(served_count(line, n as int))
                        =~= line_rows(cabinet, served(line, n as int)));
                }
                Ok(entries)
            },
            Err(e) => Err(e),
        }
    }

    /// Puts `name` at the end of the line of `cabinet`. Fails with
    /// `AlreadyQueued` where the name already waits there, and with
    /// `Internal` where the line is so long that no further position can be
    /// stored; a failure changes nothing.
    pub fn join(&mut self, cabinet: CabinetId, name: &str) -> (r: Result<(), Error>)
        requires
            old(self).wf(),
        ensures
            final(self).wf(),
            match r {
                Ok(()) => {
                    &&& !old(self).queue(cabinet).contains(name@)
                    &&& old(self).queue(cabinet).len() < i32::MAX
                    &&& final(self).queue(cabinet) == after_join(old(self).queue(cabinet), name@)
                    &&& forall|other: CabinetId|
                        other != cabinet ==> #[trigger] final(self).queue(other) == old(
                            self,
                        ).queue(other)
                },
                Err(e) => {
                    &&& final(self).rows() == old(self).rows()
                    &&& if old(self).queue(cabinet).contains(name@) {
                        e == Error::AlreadyQueued
                    } else {
                        e == Error::Internal && old(self).queue(cabinet).len() >= i32::MAX
                    }
                },
            },
            r is Ok <==> accepts(old(self).queue(cabinet), Operation::Join(name@)),
            final(self).queue(cabinet) == step(old(self).queue(cabinet), Operation::Join(name@)),
    {
        let queued = self.store.contains_entry(cabinet, name);
        let top = self.store.max_position(cabinet);
        proof {
            let line = self.queue(cabinet);
            assert(dense(self.rows(), cabinet));
            lemma_entry_in_line(self.rows(), cabinet, line, name@);
            lemma_top_of_line(self.rows(), cabinet, line);
            if !queued {
                lemma_join_steps(self.rows(), cabinet, name@, top);
            }
        }
        let plan = plan_join(cabinet, name, queued, top)?;
        self.carry_out(&plan)
    }

    /// Takes `name` out of the line of `cabinet`; the players behind it move
    /// up by one. Fails with `NotQueued`, and changes nothing, where the name
    /// does not wait there.
    pub fn leave(&mut self, cabinet: CabinetId, name: &str) -> (r: Result<(), Error>)
        requires
            old(self).wf(),
        ensures
            final(self).wf(),
            match r {
                Ok(()) => {
                    &&& old(self).queue(cabinet).contains(name@)
                    &&& final(self).queue(cabinet) == after_leave(old(self).queue(cabinet), name@)
                    &&& forall|other: CabinetId|
                        other != cabinet ==> #[trigger] final(self).queue(other) == old(
                            self,
                        ).queue(other)
                },
                Err(e) => {
                    &&& e == Error::NotQueued
                    &&& !old(self).queue(cabinet).contains(name@)
                    &&& final(self).rows() == old(self).rows()
                },
            },
            r is Ok <==> accepts(old(self).queue(cabinet), Operation::Leave(name@)),
            final(self).queue(cabinet) == step(old(self).queue(cabinet), Operation::Leave(name@)),
    {
        let position = self.store.position_of(cabinet, name).ok();
        proof {
            assert(dense(self.rows(), cabinet));
            lemma_entry_in_line(self.rows(), cabinet, self.queue(cabinet), name@);
            if let Some(held) = position {
                lemma_leave(self.rows(), cabinet, name@, held);
            }
        }
        let plan = plan_leave(cabinet, name, position)?;
        self.carry_out(&plan)
    }

    /// Serves the first `n` players of the line of `cabinet`: they leave the
    /// line, in which the others move up by `n`, and their entries are
    /// returned, first to last. A line shorter than `n` is served whole.
    /// Fails with `InvalidArgument`, and changes nothing, where `n` is
    /// smaller than one.
    pub fn next(&mut self, cabinet: CabinetId, n: i32) -> (r: Result<Vec<QueueEntry>, Error>)
        requires
            old(self).wf(),
        ensures
            final(self).wf(),
            match r {
                Ok(entries) => {
                    &&& n >= 1
                    &&& rows_of(entries@) == line_rows(
                        cabinet,
                        served(old(self).queue(cabinet), n as int),
                    )
                    &&& final(self).queue(cabinet) == after_next(
                        old(self).queue(cabinet),
                        n as int,
                    )
                    &&& forall|other: CabinetId|
                        other != cabinet ==> #[trigger] final(self).queue(other) == old(
                            self,
                        ).queue(other)
                },
                Err(e) => {
                    &&& e == Error::InvalidArgument
                    &&& n < 1
                    &&& final(self).rows() == old(self).rows()
                },
            },
            r is Ok <==> accepts(old(self).queue(cabinet), Operation::Next(n as int)),
            final(self).queue(cabinet) == step(old(self).queue(cabinet), Operation::Next(n as int)),
    {
        let plan = plan_next(cabinet, n)?;
        let entries = self.upcoming(cabinet, n)?;
        proof {
            lemma_next(self.rows(), cabinet, n);
        }
        self.carry_out(&plan)?;
        Ok(entries)
    }

    /// Lets the player behind `name` pass: the two swap their places in the
    /// line of `cabinet`. Fails, and changes nothing, with `NotQueued` where
    /// the name does not wait there and with `AlreadyLast` where nobody
    /// waits behind it.
    pub fn postpone(&mut self, cabinet: CabinetId, name: &str) -> (r: Result<(), Error>)
        requires
            old(self).wf(),
        ensures
            final(self).wf(),
            match r {
                Ok(()) => {
                    &&& old(self).queue(cabinet).contains(name@)
                    &&& !is_last(old(self).queue(cabinet), name@)
                    &&& final(self).queue(cabinet) == after_postpone(
                        old(self).queue(cabinet),
                        name@,
                    )
                    &&& forall|other: CabinetId|
                        other != cabinet ==> #[trigger] final(self).queue(other) == old(
                            self,
                        ).queue(other)
                },
                Err(e) => {
                    &&& final(self).rows() == old(self).rows()
                    &&& if !old(self).queue(cabinet).contains(name@) {
                        e == Error::NotQueued
                    } else {
                        e == Error::AlreadyLast && is_last(old(self).queue(cabinet), name@)
                    }
                },
            },
            r is Ok <==> accepts(old(self).queue(cabinet), Operation::Postpone(name@)),
            final(self).queue(cabinet) == step(
                old(self).queue(cabinet),
                Operation::Postpone(name@),
            ),
    {
        let position = self.store.position_of(cabinet, name).ok();
        let top = self.store.max_position(cabinet);
        proof {
            let line = self.queue(cabinet);
            assert(dense(self.rows(), cabinet));
            lemma_entry_in_line(self.rows(), cabinet, line, name@);
            lemma_top_of_line(self.rows(), cabinet, line);
            if let Some(held) = position {
                lemma_place_of_entry(self.rows(), cabinet, line, name@);
                if held < line.len() {
                    lemma_postpone(self.rows(), cabinet, name@, held);
                }
            }
        }
        let plan = plan_postpone(cabinet, name, position, top)?;
        self.carry_out(&plan)
    }

    /// Carries out the plan of a transition, step by step. The plan is one
    /// that the table accepts: no step of it is refused.
    fn carry_out(&mut self, plan: &Vec<StoreAction>) -> (r: Result<(), Error>)
        requires
            old(self).store.inv(),
            applied(old(self).rows(), steps_of(plan@)) is Some,
        ensures
            r is Ok,
            final(self).store.inv(),
            Some(final(self).rows()) == applied(old(self).rows(), steps_of(plan@)),
    {
        let ghost steps = steps_of(plan@);
        let ghost target = applied(self.rows(), steps);
        let mut i: usize = 0;
        assert(steps.skip(0) =~= steps);
        while i < plan.len()
            invariant
                0 <= i <= plan.len(),
                steps == steps_of(plan@),
                self.store.inv(),
                target is Some,
                applied(self.rows(), steps.skip(i as int)) == target,
            decreases plan.len() - i,
        {
            proof {
                assert(steps.skip(i as int)[0] == plan@[i as int]@);
                assert(steps.skip(i as int).skip(1) =~= steps.skip(i + 1));
            }
            self.store.apply(&plan[i])?;
            i += 1;
        }
        Ok(())
    }
}

} // verus!
