use arcqueue::{CabinetId, Error, QueueEngine, QueueEntry};

fn cabinet(n: u128) -> CabinetId {
    CabinetId::from_u128(n)
}

fn line_of(engine: &QueueEngine, c: CabinetId) -> Vec<(String, i32)> {
    engine.players(c).into_iter().map(|e| (e.name, e.position)).collect()
}

fn filled(c: CabinetId, names: &[&str]) -> QueueEngine {
    let mut engine = QueueEngine::new();
    for name in names {
        assert_eq!(engine.join(c, name), Ok(()));
    }
    engine
}

fn pairs(names: &[&str]) -> Vec<(String, i32)> {
    names.iter().enumerate().map(|(i, n)| (n.to_string(), i as i32 + 1)).collect()
}

#[test]
fn new_engine_has_empty_lines() {
    let engine = QueueEngine::new();
    assert!(engine.players(cabinet(1)).is_empty());
    assert!(!engine.is_name_in_queue(cabinet(1), "A"));
}

#[test]
fn join_appends_at_next_position() {
    let c = cabinet(7);
    let mut engine = QueueEngine::new();
    assert_eq!(engine.join(c, "A"), Ok(()));
    assert_eq!(line_of(&engine, c), pairs(&["A"]));
    assert_eq!(engine.join(c, "B"), Ok(()));
    assert_eq!(engine.join(c, "C"), Ok(()));
    assert_eq!(line_of(&engine, c), pairs(&["A", "B", "C"]));
    assert!(engine.is_name_in_queue(c, "B"));
    assert!(!engine.is_name_in_queue(c, "D"));
}

#[test]
fn players_returns_entries_of_the_cabinet() {
    let c = cabinet(3);
    let engine = filled(c, &["A", "B"]);
    assert_eq!(
        engine.players(c),
        vec![
            QueueEntry { cabinet_id: c, name: "A".to_string(), position: 1 },
            QueueEntry { cabinet_id: c, name: "B".to_string(), position: 2 },
        ]
    );
}

#[test]
fn duplicate_join_is_rejected_and_changes_nothing() {
    let c = cabinet(1);
    let mut engine = filled(c, &["A", "B"]);
    let before = line_of(&engine, c);
    assert_eq!(engine.join(c, "A"), Err(Error::AlreadyQueued));
    assert_eq!(engine.join(c, "A"), Err(Error::AlreadyQueued));
    assert_eq!(engine.join(c, "B"), Err(Error::AlreadyQueued));
    assert_eq!(line_of(&engine, c), before);
}

#[test]
fn same_name_may_wait_at_two_cabinets() {
    let mut engine = QueueEngine::new();
    assert_eq!(engine.join(cabinet(1), "A"), Ok(()));
    assert_eq!(engine.join(cabinet(2), "B"), Ok(()));
    assert_eq!(engine.join(cabinet(2), "A"), Ok(()));
    assert_eq!(line_of(&engine, cabinet(1)), pairs(&["A"]));
    assert_eq!(line_of(&engine, cabinet(2)), pairs(&["B", "A"]));
}

#[test]
fn leave_closes_the_gap() {
    let c = cabinet(1);
    let mut engine = filled(c, &["A", "B", "C", "D"]);
    assert_eq!(engine.leave(c, "B"), Ok(()));
    assert_eq!(line_of(&engine, c), pairs(&["A", "C", "D"]));
    assert_eq!(engine.leave(c, "A"), Ok(()));
    assert_eq!(line_of(&engine, c), pairs(&["C", "D"]));
    assert_eq!(engine.leave(c, "D"), Ok(()));
    assert_eq!(line_of(&engine, c), pairs(&["C"]));
    assert_eq!(engine.leave(c, "C"), Ok(()));
    assert!(line_of(&engine, c).is_empty());
}

#[test]
fn leave_of_absent_name_is_not_queued() {
    let c = cabinet(1);
    let mut engine = filled(c, &["A"]);
    assert_eq!(engine.leave(c, "B"), Err(Error::NotQueued));
    assert_eq!(engine.leave(cabinet(2), "A"), Err(Error::NotQueued));
    assert_eq!(line_of(&engine, c), pairs(&["A"]));
}

#[test]
fn join_then_leave_restores_the_line() {
    let c = cabinet(1);
    let mut engine = filled(c, &["X", "Y", "Z"]);
    let other = cabinet(2);
    assert_eq!(engine.join(other, "Q"), Ok(()));
    let before = engine.players(c);
    let before_other = engine.players(other);
    assert_eq!(engine.join(c, "A"), Ok(()));
    assert_eq!(engine.leave(c, "A"), Ok(()));
    assert_eq!(engine.players(c), before);
    assert_eq!(engine.players(other), before_other);
}

#[test]
fn join_then_leave_restores_the_empty_line() {
    let c = cabinet(1);
    let mut engine = QueueEngine::new();
    assert_eq!(engine.join(c, "A"), Ok(()));
    assert_eq!(engine.leave(c, "A"), Ok(()));
    assert!(engine.players(c).is_empty());
}

#[test]
fn advance_two_of_four() {
    let c = cabinet(1);
    let mut engine = filled(c, &["A", "B", "C", "D"]);
    let served = engine.next(c, 2).unwrap();
    assert_eq!(
        served,
        vec![
            QueueEntry { cabinet_id: c, name: "A".to_string(), position: 1 },
            QueueEntry { cabinet_id: c, name: "B".to_string(), position: 2 },
        ]
    );
    assert_eq!(line_of(&engine, c), pairs(&["C", "D"]));
}

#[test]
fn advance_over_request_serves_all() {
    let c = cabinet(1);
    let mut engine = filled(c, &["A", "B"]);
    let served = engine.next(c, 5).unwrap();
    let names: Vec<String> = served.into_iter().map(|e| e.name).collect();
    assert_eq!(names, vec!["A".to_string(), "B".to_string()]);
    assert!(engine.players(c).is_empty());
}

#[test]
fn advance_on_empty_line_returns_nothing() {
    let c = cabinet(1);
    let mut engine = QueueEngine::new();
    assert_eq!(engine.next(c, 1), Ok(vec![]));
    assert_eq!(engine.next(c, i32::MAX), Ok(vec![]));
    assert!(engine.players(c).is_empty());
}

#[test]
fn advance_exactly_the_whole_line() {
    let c = cabinet(1);
    let mut engine = filled(c, &["A", "B", "C"]);
    let served = engine.next(c, 3).unwrap();
    assert_eq!(served.len(), 3);
    assert!(engine.players(c).is_empty());
}

#[test]
fn advance_one_serves_the_first() {
    let c = cabinet(1);
    let mut engine = filled(c, &["A", "B", "C"]);
    let served = engine.next(c, 1).unwrap();
    assert_eq!(served, vec![QueueEntry { cabinet_id: c, name: "A".to_string(), position: 1 }]);
    assert_eq!(line_of(&engine, c), pairs(&["B", "C"]));
}

#[test]
fn advance_rejects_counts_below_one() {
    let c = cabinet(1);
    let mut engine = filled(c, &["A", "B"]);
    assert_eq!(engine.next(c, 0), Err(Error::InvalidArgument));
    assert_eq!(engine.next(c, -3), Err(Error::InvalidArgument));
    assert_eq!(engine.next(c, i32::MIN), Err(Error::InvalidArgument));
    assert_eq!(line_of(&engine, c), pairs(&["A", "B"]));
}

#[test]
fn advance_leaves_other_cabinets_alone() {
    let mut engine = filled(cabinet(1), &["A", "B", "C"]);
    assert_eq!(engine.join(cabinet(2), "X"), Ok(()));
    assert_eq!(engine.join(cabinet(2), "Y"), Ok(()));
    engine.next(cabinet(1), 2).unwrap();
    assert_eq!(line_of(&engine, cabinet(1)), pairs(&["C"]));
    assert_eq!(line_of(&engine, cabinet(2)), pairs(&["X", "Y"]));
}

#[test]
fn upcoming_lists_without_removing() {
    let c = cabinet(1);
    let engine = filled(c, &["A", "B", "C"]);
    let two: Vec<(String, i32)> =
        engine.upcoming(c, 2).unwrap().into_iter().map(|e| (e.name, e.position)).collect();
    assert_eq!(two, pairs(&["A", "B"]));
    assert_eq!(engine.upcoming(c, 3).unwrap().len(), 3);
    assert_eq!(engine.upcoming(c, 10).unwrap().len(), 3);
    assert_eq!(line_of(&engine, c), pairs(&["A", "B", "C"]));
}

#[test]
fn upcoming_rejects_counts_below_one() {
    let c = cabinet(1);
    let engine = filled(c, &["A"]);
    assert_eq!(engine.upcoming(c, 0), Err(Error::InvalidArgument));
    assert_eq!(engine.upcoming(c, -1), Err(Error::InvalidArgument));
}

#[test]
fn upcoming_of_empty_line_is_empty() {
    let engine = QueueEngine::new();
    assert_eq!(engine.upcoming(cabinet(9), 4), Ok(vec![]));
}

#[test]
fn postpone_swaps_with_the_next() {
    let c = cabinet(1);
    let mut engine = filled(c, &["A", "B", "C"]);
    assert_eq!(engine.postpone(c, "A"), Ok(()));
    assert_eq!(line_of(&engine, c), pairs(&["B", "A", "C"]));
    assert_eq!(engine.postpone(c, "A"), Ok(()));
    assert_eq!(line_of(&engine, c), pairs(&["B", "C", "A"]));
}

#[test]
fn postpone_in_the_middle() {
    let c = cabinet(1);
    let mut engine = filled(c, &["A", "B", "C", "D"]);
    assert_eq!(engine.postpone(c, "B"), Ok(()));
    assert_eq!(line_of(&engine, c), pairs(&["A", "C", "B", "D"]));
}

#[test]
fn postpone_of_last_is_rejected() {
    let c = cabinet(1);
    let mut engine = filled(c, &["A", "B"]);
    assert_eq!(engine.postpone(c, "B"), Err(Error::AlreadyLast));
    assert_eq!(line_of(&engine, c), pairs(&["A", "B"]));
}

#[test]
fn postpone_of_only_player_is_rejected() {
    let c = cabinet(1);
    let mut engine = filled(c, &["A"]);
    assert_eq!(engine.postpone(c, "A"), Err(Error::AlreadyLast));
    assert_eq!(line_of(&engine, c), pairs(&["A"]));
}

#[test]
fn postpone_of_absent_name_is_not_queued() {
    let c = cabinet(1);
    let mut engine = filled(c, &["A", "B"]);
    assert_eq!(engine.postpone(c, "C"), Err(Error::NotQueued));
    assert_eq!(engine.postpone(cabinet(2), "A"), Err(Error::NotQueued));
    assert_eq!(line_of(&engine, c), pairs(&["A", "B"]));
}

#[test]
fn postpone_leaves_other_cabinets_alone() {
    let mut engine = filled(cabinet(1), &["A", "B"]);
    assert_eq!(engine.join(cabinet(2), "A"), Ok(()));
    assert_eq!(engine.join(cabinet(2), "B"), Ok(()));
    assert_eq!(engine.postpone(cabinet(1), "A"), Ok(()));
    assert_eq!(line_of(&engine, cabinet(1)), pairs(&["B", "A"]));
    assert_eq!(line_of(&engine, cabinet(2)), pairs(&["A", "B"]));
}

#[test]
fn positions_stay_dense_through_a_run_of_operations() {
    let c = cabinet(1);
    let d = cabinet(2);
    let mut engine = QueueEngine::new();
    for name in ["A", "B", "C", "D", "E", "F", "G"] {
        engine.join(c, name).unwrap();
        engine.join(d, name).unwrap();
    }
    engine.leave(c, "C").unwrap();
    engine.postpone(c, "A").unwrap();
    engine.next(c, 2).unwrap();
    engine.join(c, "H").unwrap();
    engine.postpone(c, "E").unwrap();
    engine.leave(d, "G").unwrap();
    engine.leave(c, "H").unwrap();
    assert_eq!(engine.join(c, "E"), Err(Error::AlreadyQueued));
    for cab in [c, d] {
        let entries = engine.players(cab);
        let positions: Vec<i32> = entries.iter().map(|e| e.position).collect();
        let expected: Vec<i32> = (1..=entries.len() as i32).collect();
        assert_eq!(positions, expected);
        let mut names: Vec<&str> = entries.iter().map(|e| e.name.as_str()).collect();
        names.sort();
        names.dedup();
        assert_eq!(names.len(), entries.len());
    }
    assert_eq!(line_of(&engine, c), pairs(&["D", "F", "E", "G"]));
    assert_eq!(line_of(&engine, d), pairs(&["A", "B", "C", "D", "E", "F"]));
}

#[test]
fn joins_in_any_order_fill_positions_one_to_n() {
    let c = cabinet(1);
    let orders: [[&str; 4]; 3] =
        [["A", "B", "C", "D"], ["D", "B", "A", "C"], ["C", "D", "B", "A"]];
    for order in orders {
        let mut engine = QueueEngine::new();
        for name in order {
            assert_eq!(engine.join(c, name), Ok(()));
        }
        assert_eq!(line_of(&engine, c), pairs(&order));
    }
}

#[test]
fn advance_with_greatest_count_serves_all() {
    let c = cabinet(1);
    let mut engine = filled(c, &["A", "B", "C"]);
    let served = engine.next(c, i32::MAX).unwrap();
    let names: Vec<String> = served.into_iter().map(|e| e.name).collect();
    assert_eq!(names, vec!["A".to_string(), "B".to_string(), "C".to_string()]);
    assert!(engine.players(c).is_empty());
    assert_eq!(engine.join(c, "D"), Ok(()));
    assert_eq!(line_of(&engine, c), pairs(&["D"]));
}

#[test]
fn names_are_compared_exactly() {
    let c = cabinet(1);
    let mut engine = filled(c, &["Ann", "ann", "Ann "]);
    assert_eq!(engine.join(c, "Ann"), Err(Error::AlreadyQueued));
    assert_eq!(engine.join(c, ""), Ok(()));
    assert_eq!(engine.leave(c, "ann"), Ok(()));
    assert_eq!(line_of(&engine, c), pairs(&["Ann", "Ann ", ""]));
}
