//! When a failed transaction is tried again.
//!
//! Two transactions on one cabinet can race. The table's constraints turn a
//! lost race into a conflict, and the transaction manager may abort one of
//! two transactions that block each other. Both faults pass: the transaction
//! is rolled back and tried again from its first read, a conflict up to
//! `MAX_CONFLICT_RETRIES` times and an abort once. Whoever runs the
//! transactions keeps the count of `Attempts` and asks `decide` after every
//! fault.

use vstd::prelude::*;

use crate::error::Error;

verus! {

/// How often a transaction is tried again after a conflict.
pub const MAX_CONFLICT_RETRIES: u8 = 3;

/// How often a transaction is tried again after the transaction manager has
/// aborted it.
pub const MAX_ABORT_RETRIES: u8 = 1;

/// What went wrong in the storage while a transaction ran.
#[derive(Clone, Copy, Debug, PartialEq, Eq, Structural)]
pub enum StorageFault {
    /// A row was refused because its name or its position is taken.
    Conflict,
    /// The transaction manager aborted the transaction: a deadlock, or a
    /// failure to serialize.
    Aborted,
    /// A row that had to be there was not found.
    RowNotFound,
    /// Anything else: the connection is lost, the statement is refused.
    Other,
}

impl StorageFault {
    /// The fault that a PostgreSQL error code reports: `23505`, a violated
    /// uniqueness constraint, is a conflict; `40001`, a failure to
    /// serialize, and `40P01`, a deadlock, are aborts; every other code is
    /// another fault.
    pub open spec fn sqlstate_fault(code: Seq<char>) -> StorageFault {
        if code == "23505"@ {
            StorageFault::Conflict
        } else if code == "40001"@ || code == "40P01"@ {
            StorageFault::Aborted
        } else {
            StorageFault::Other
        }
    }

    /// Reads the fault from the error code of a PostgreSQL error.
    pub fn of_sqlstate(code: &str) -> (fault: StorageFault)
        ensures
            fault == Self::sqlstate_fault(code@),
    {
        let given = code.to_owned();
        if given == "23505".to_owned() {
            StorageFault::Conflict
        } else if given == "40001".to_owned() || given == "40P01".to_owned() {
            StorageFault::Aborted
        } else {
            StorageFault::Other
        }
    }
}

/// The retries that a transaction has used up so far.
#[derive(Clone, Copy, Debug, PartialEq, Eq, Structural)]
pub struct Attempts {
    /// Retries after a conflict.
    pub conflicts: u8,
    /// Retries after an abort.
    pub aborts: u8,
}

/// What to do after a fault.
#[derive(Clone, Copy, Debug, PartialEq, Eq, Structural)]
pub enum Decision {
    /// Roll back and run the transaction again, with this count of retries.
    Retry(Attempts),
    /// Roll back and report this failure.
    GiveUp(Error),
}

impl Attempts {
    /// The count of a transaction that has not been retried yet.
    pub fn new() -> (attempts: Attempts)
        ensures
            attempts == (Attempts { conflicts: 0, aborts: 0 }),
    {
        Attempts { conflicts: 0, aborts: 0 }
    }

    /// The number of retries used up.
    pub open spec fn used(self) -> int {
        self.conflicts + self.aborts
    }

    /// What follows a fault. A conflict is retried while fewer than
    /// `MAX_CONFLICT_RETRIES` retries went to conflicts, and an abort while
    /// fewer than `MAX_ABORT_RETRIES` went to aborts; once they are used up
    /// the fault is reported as `Internal`. A missing row is reported as
    /// `NotFound` and any other fault as `Internal`, without a retry.
    pub open spec fn after(self, fault: StorageFault) -> Decision {
        match fault {
            StorageFault::Conflict => if self.conflicts < MAX_CONFLICT_RETRIES {
                Decision::Retry(
                    Attempts { conflicts: (self.conflicts + 1) as u8, aborts: self.aborts },
                )
            } else {
                Decision::GiveUp(Error::Internal)
            },
            StorageFault::Aborted => if self.aborts < MAX_ABORT_RETRIES {
                Decision::Retry(
                    Attempts { conflicts: self.conflicts, aborts: (self.aborts + 1) as u8 },
                )
            } else {
                Decision::GiveUp(Error::Internal)
            },
            StorageFault::RowNotFound => Decision::GiveUp(Error::NotFound),
            StorageFault::Other => Decision::GiveUp(Error::Internal),
        }
    }

    /// Decides what follows a fault: see `after`.
    pub fn decide(&self, fault: StorageFault) -> (decision: Decision)
        ensures
            decision == self.after(fault),
    {
        match fault {
            StorageFault::Conflict => {
                if self.conflicts < MAX_CONFLICT_RETRIES {
                    Decision::Retry(
                        Attempts { conflicts: self.conflicts + 1, aborts: self.aborts },
                    )
                } else {
                    Decision::GiveUp(Error::Internal)
                }
            },
            StorageFault::Aborted => {
                if self.aborts < MAX_ABORT_RETRIES {
                    Decision::Retry(
                        Attempts { conflicts: self.conflicts, aborts: self.aborts + 1 },
                    )
                } else {
                    Decision::GiveUp(Error::Internal)
                }
            },
            StorageFault::RowNotFound => Decision::GiveUp(Error::NotFound),
            StorageFault::Other => Decision::GiveUp(Error::Internal),
        }
    }
}

/// The count of retries after a run of faults, or `None` once a fault has
/// been reported.
pub open spec fn attempts_after(start: Attempts, faults: Seq<StorageFault>) -> Option<Attempts>
    decreases faults.len(),
{
    if faults.len() == 0 {
        Some(start)
    } else {
        match attempts_after(start, faults.drop_last()) {
            Some(attempts) => match attempts.after(faults.last()) {
                Decision::Retry(next) => Some(next),
                Decision::GiveUp(_) => None,
            },
            None => None,
        }
    }
}

/// Retrying ends: every retry is counted, and no transaction is retried more
/// than `MAX_CONFLICT_RETRIES + MAX_ABORT_RETRIES` times, whatever faults it
/// meets.
pub proof fn law_retries_bounded(faults: Seq<StorageFault>)
    ensures
        match attempts_after(Attempts { conflicts: 0, aborts: 0 }, faults) {
            Some(attempts) => {
                &&& attempts.used() == faults.len()
                &&& attempts.conflicts <= MAX_CONFLICT_RETRIES
                &&& attempts.aborts <= MAX_ABORT_RETRIES
            },
            None => true,
        },
        faults.len() > MAX_CONFLICT_RETRIES + MAX_ABORT_RETRIES ==> attempts_after(
            Attempts { conflicts: 0, aborts: 0 },
            faults,
        ) is None,
    decreases faults.len(),
{
    if faults.len() > 0 {
        law_retries_bounded(faults.drop_last());
    }
}

} // verus!
