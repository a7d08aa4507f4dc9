use arcqueue::plan::{check_count, plan_join, plan_leave, plan_next, plan_postpone};
use arcqueue::retry::{Attempts, Decision, StorageFault, MAX_ABORT_RETRIES, MAX_CONFLICT_RETRIES};
use arcqueue::table::PositionFilter;
use arcqueue::{CabinetId, Error, QueueStore, StoreAction};

fn cab(n: u128) -> CabinetId {
    CabinetId::from_u128(n)
}

#[test]
fn check_count_accepts_one_and_more() {
    assert_eq!(check_count(1), Ok(()));
    assert_eq!(check_count(i32::MAX), Ok(()));
    assert_eq!(check_count(0), Err(Error::InvalidArgument));
    assert_eq!(check_count(-7), Err(Error::InvalidArgument));
}

#[test]
fn plan_join_inserts_behind_the_top() {
    let c = cab(1);
    assert_eq!(
        plan_join(c, "A", false, None),
        Ok(vec![StoreAction::Insert { cabinet: c, name: "A".to_string(), position: 1 }])
    );
    assert_eq!(
        plan_join(c, "A", false, Some(4)),
        Ok(vec![StoreAction::Insert { cabinet: c, name: "A".to_string(), position: 5 }])
    );
}

#[test]
fn plan_join_rejects_queued_name_and_full_line() {
    let c = cab(1);
    assert_eq!(plan_join(c, "A", true, Some(4)), Err(Error::AlreadyQueued));
    assert_eq!(plan_join(c, "A", true, Some(i32::MAX)), Err(Error::AlreadyQueued));
    assert_eq!(plan_join(c, "A", false, Some(i32::MAX)), Err(Error::Internal));
}

#[test]
fn plan_leave_deletes_then_shifts() {
    let c = cab(1);
    assert_eq!(
        plan_leave(c, "B", Some(2)),
        Ok(vec![
            StoreAction::DeleteOne { cabinet: c, name: "B".to_string() },
            StoreAction::Shift { cabinet: c, filter: PositionFilter::Above(2), delta: -1 },
        ])
    );
    assert_eq!(plan_leave(c, "B", None), Err(Error::NotQueued));
}

#[test]
fn plan_next_deletes_prefix_then_shifts() {
    let c = cab(1);
    assert_eq!(
        plan_next(c, 3),
        Ok(vec![
            StoreAction::DeleteWhere { cabinet: c, filter: PositionFilter::UpTo(3) },
            StoreAction::Shift { cabinet: c, filter: PositionFilter::Above(3), delta: -3 },
        ])
    );
    assert_eq!(plan_next(c, 0), Err(Error::InvalidArgument));
    assert_eq!(plan_next(c, -1), Err(Error::InvalidArgument));
}

#[test]
fn plan_postpone_swaps_two_rows() {
    let c = cab(1);
    assert_eq!(
        plan_postpone(c, "A", Some(1), Some(3)),
        Ok(vec![
            StoreAction::DeleteOne { cabinet: c, name: "A".to_string() },
            StoreAction::Shift { cabinet: c, filter: PositionFilter::Exactly(2), delta: -1 },
            StoreAction::Insert { cabinet: c, name: "A".to_string(), position: 2 },
        ])
    );
}

#[test]
fn plan_postpone_rejections() {
    let c = cab(1);
    assert_eq!(plan_postpone(c, "A", None, Some(3)), Err(Error::NotQueued));
    assert_eq!(plan_postpone(c, "A", None, None), Err(Error::NotQueued));
    assert_eq!(plan_postpone(c, "A", Some(3), Some(3)), Err(Error::AlreadyLast));
    assert_eq!(plan_postpone(c, "A", Some(1), Some(1)), Err(Error::AlreadyLast));
    assert_eq!(plan_postpone(c, "A", Some(i32::MAX), Some(i32::MAX)), Err(Error::AlreadyLast));
}

#[test]
fn plans_carried_out_on_a_store() {
    let c = cab(1);
    let mut store = QueueStore::new();
    for name in ["A", "B", "C", "D"] {
        let queued = store.contains_entry(c, name);
        let top = store.max_position(c);
        for action in plan_join(c, name, queued, top).unwrap() {
            assert_eq!(store.apply(&action), Ok(()));
        }
    }
    let position = store.position_of(c, "B").ok();
    let top = store.max_position(c);
    for action in plan_postpone(c, "B", position, top).unwrap() {
        assert_eq!(store.apply(&action), Ok(()));
    }
    let position = store.position_of(c, "A").ok();
    for action in plan_leave(c, "A", position).unwrap() {
        assert_eq!(store.apply(&action), Ok(()));
    }
    let listed: Vec<(String, i32)> =
        store.list_by_cabinet(c).into_iter().map(|e| (e.name, e.position)).collect();
    assert_eq!(
        listed,
        vec![("C".to_string(), 1), ("B".to_string(), 2), ("D".to_string(), 3)]
    );
    for action in plan_next(c, 2).unwrap() {
        assert_eq!(store.apply(&action), Ok(()));
    }
    let listed: Vec<(String, i32)> =
        store.list_by_cabinet(c).into_iter().map(|e| (e.name, e.position)).collect();
    assert_eq!(listed, vec![("D".to_string(), 1)]);
}

#[test]
fn retry_limits() {
    assert_eq!(MAX_CONFLICT_RETRIES, 3);
    assert_eq!(MAX_ABORT_RETRIES, 1);
    assert_eq!(Attempts::new(), Attempts { conflicts: 0, aborts: 0 });
}

#[test]
fn conflict_is_retried_three_times() {
    let mut attempts = Attempts::new();
    for used in 1..=3u8 {
        match attempts.decide(StorageFault::Conflict) {
            Decision::Retry(next) => {
                assert_eq!(next, Attempts { conflicts: used, aborts: 0 });
                attempts = next;
            }
            Decision::GiveUp(e) => panic!("gave up with {:?}", e),
        }
    }
    assert_eq!(attempts.decide(StorageFault::Conflict), Decision::GiveUp(Error::Internal));
}

#[test]
fn abort_is_retried_once() {
    let attempts = Attempts::new();
    let next = Attempts { conflicts: 0, aborts: 1 };
    assert_eq!(attempts.decide(StorageFault::Aborted), Decision::Retry(next));
    assert_eq!(next.decide(StorageFault::Aborted), Decision::GiveUp(Error::Internal));
    assert_eq!(
        next.decide(StorageFault::Conflict),
        Decision::Retry(Attempts { conflicts: 1, aborts: 1 })
    );
}

#[test]
fn other_faults_are_not_retried() {
    let attempts = Attempts::new();
    assert_eq!(attempts.decide(StorageFault::RowNotFound), Decision::GiveUp(Error::NotFound));
    assert_eq!(attempts.decide(StorageFault::Other), Decision::GiveUp(Error::Internal));
}

#[test]
fn sqlstate_codes_are_told_apart() {
    assert_eq!(StorageFault::of_sqlstate("23505"), StorageFault::Conflict);
    assert_eq!(StorageFault::of_sqlstate("40001"), StorageFault::Aborted);
    assert_eq!(StorageFault::of_sqlstate("40P01"), StorageFault::Aborted);
    assert_eq!(StorageFault::of_sqlstate("23503"), StorageFault::Other);
    assert_eq!(StorageFault::of_sqlstate("40p01"), StorageFault::Other);
    assert_eq!(StorageFault::of_sqlstate(""), StorageFault::Other);
    assert_eq!(StorageFault::of_sqlstate("235050"), StorageFault::Other);
}

#[test]
fn stale_join_is_refused_and_fresh_join_accepted() {
    let c = cab(1);
    let mut store = QueueStore::new();
    store.insert(c, "A", 1).unwrap();
    let top = store.max_position(c);
    let first = plan_join(c, "B", store.contains_entry(c, "B"), top).unwrap();
    let second = plan_join(c, "C", store.contains_entry(c, "C"), top).unwrap();
    assert_eq!(store.apply(&first[0]), Ok(()));
    assert_eq!(store.apply(&second[0]), Err(Error::Conflict));
    assert_eq!(store.list_by_cabinet(c).len(), 2);
    let mut attempts = Attempts::new();
    match attempts.decide(StorageFault::Conflict) {
        Decision::Retry(next) => attempts = next,
        Decision::GiveUp(e) => panic!("gave up with {:?}", e),
    }
    assert_eq!(attempts, Attempts { conflicts: 1, aborts: 0 });
    let fresh = plan_join(c, "C", store.contains_entry(c, "C"), store.max_position(c)).unwrap();
    assert_eq!(store.apply(&fresh[0]), Ok(()));
    assert_eq!(store.position_of(c, "B"), Ok(2));
    assert_eq!(store.position_of(c, "C"), Ok(3));
}
