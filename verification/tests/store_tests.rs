use arcqueue::table::PositionFilter;
use arcqueue::{CabinetId, Error, QueueEntry, QueueStore, StoreAction};

fn cab(n: u128) -> CabinetId {
    CabinetId::from_u128(n)
}

fn rows(store: &QueueStore, c: CabinetId) -> Vec<(String, i32)> {
    store.list_by_cabinet(c).into_iter().map(|e| (e.name, e.position)).collect()
}

fn row(name: &str, position: i32) -> (String, i32) {
    (name.to_string(), position)
}

fn sample() -> QueueStore {
    let mut store = QueueStore::new();
    store.insert(cab(1), "C", 3).unwrap();
    store.insert(cab(1), "A", 1).unwrap();
    store.insert(cab(2), "X", 1).unwrap();
    store.insert(cab(1), "B", 2).unwrap();
    store.insert(cab(1), "D", 4).unwrap();
    store
}

#[test]
fn store_starts_empty() {
    let store = QueueStore::new();
    assert!(store.list_by_cabinet(cab(1)).is_empty());
    assert_eq!(store.max_position(cab(1)), None);
    assert!(!store.contains_entry(cab(1), "A"));
}

#[test]
fn store_lists_by_ascending_position() {
    let store = sample();
    assert_eq!(rows(&store, cab(1)), vec![row("A", 1), row("B", 2), row("C", 3), row("D", 4)]);
    assert_eq!(rows(&store, cab(2)), vec![row("X", 1)]);
    assert!(rows(&store, cab(3)).is_empty());
}

#[test]
fn store_lists_rows_with_gaps_in_order() {
    let mut store = QueueStore::new();
    store.insert(cab(1), "late", 40).unwrap();
    store.insert(cab(1), "early", -5).unwrap();
    store.insert(cab(1), "mid", 7).unwrap();
    assert_eq!(rows(&store, cab(1)), vec![row("early", -5), row("mid", 7), row("late", 40)]);
    assert_eq!(store.max_position(cab(1)), Some(40));
}

#[test]
fn store_list_top_n() {
    let store = sample();
    let top: Vec<(String, i32)> =
        store.list_top_n(cab(1), 2).unwrap().into_iter().map(|e| (e.name, e.position)).collect();
    assert_eq!(top, vec![row("A", 1), row("B", 2)]);
    assert_eq!(store.list_top_n(cab(1), 4).unwrap().len(), 4);
    assert_eq!(store.list_top_n(cab(1), 9).unwrap().len(), 4);
    assert_eq!(store.list_top_n(cab(3), 1), Ok(vec![]));
}

#[test]
fn store_list_top_n_rejects_counts_below_one() {
    let store = sample();
    assert_eq!(store.list_top_n(cab(1), 0), Err(Error::InvalidArgument));
    assert_eq!(store.list_top_n(cab(1), -1), Err(Error::InvalidArgument));
}

#[test]
fn store_contains_and_position_of() {
    let store = sample();
    assert!(store.contains_entry(cab(1), "C"));
    assert!(!store.contains_entry(cab(2), "C"));
    assert!(!store.contains_entry(cab(1), "X"));
    assert_eq!(store.position_of(cab(1), "C"), Ok(3));
    assert_eq!(store.position_of(cab(2), "X"), Ok(1));
    assert_eq!(store.position_of(cab(2), "C"), Err(Error::NotFound));
    assert_eq!(store.position_of(cab(1), "nobody"), Err(Error::NotFound));
}

#[test]
fn store_max_position() {
    let store = sample();
    assert_eq!(store.max_position(cab(1)), Some(4));
    assert_eq!(store.max_position(cab(2)), Some(1));
    assert_eq!(store.max_position(cab(3)), None);
}

#[test]
fn store_insert_conflicts_on_name() {
    let mut store = sample();
    assert_eq!(store.insert(cab(1), "A", 9), Err(Error::Conflict));
    assert_eq!(rows(&store, cab(1)).len(), 4);
}

#[test]
fn store_insert_conflicts_on_position() {
    let mut store = sample();
    assert_eq!(store.insert(cab(1), "E", 2), Err(Error::Conflict));
    assert_eq!(rows(&store, cab(1)).len(), 4);
    assert_eq!(store.insert(cab(2), "E", 2), Ok(()));
    assert_eq!(store.insert(cab(3), "A", 1), Ok(()));
}

#[test]
fn store_delete_one() {
    let mut store = sample();
    store.delete_one(cab(1), "B");
    assert_eq!(rows(&store, cab(1)), vec![row("A", 1), row("C", 3), row("D", 4)]);
    store.delete_one(cab(1), "nobody");
    store.delete_one(cab(2), "A");
    assert_eq!(rows(&store, cab(1)), vec![row("A", 1), row("C", 3), row("D", 4)]);
    assert_eq!(rows(&store, cab(2)), vec![row("X", 1)]);
}

#[test]
fn store_delete_where() {
    let mut store = sample();
    store.delete_where(cab(1), PositionFilter::UpTo(2));
    assert_eq!(rows(&store, cab(1)), vec![row("C", 3), row("D", 4)]);
    assert_eq!(rows(&store, cab(2)), vec![row("X", 1)]);
    store.delete_where(cab(1), PositionFilter::Above(3));
    assert_eq!(rows(&store, cab(1)), vec![row("C", 3)]);
    store.delete_where(cab(1), PositionFilter::Below(3));
    assert_eq!(rows(&store, cab(1)), vec![row("C", 3)]);
    store.delete_where(cab(1), PositionFilter::Exactly(3));
    assert!(rows(&store, cab(1)).is_empty());
}

#[test]
fn position_filter_matches() {
    assert!(PositionFilter::Above(3).matches(4));
    assert!(!PositionFilter::Above(3).matches(3));
    assert!(PositionFilter::Below(3).matches(2));
    assert!(!PositionFilter::Below(3).matches(3));
    assert!(PositionFilter::Exactly(3).matches(3));
    assert!(!PositionFilter::Exactly(3).matches(4));
    assert!(PositionFilter::UpTo(3).matches(3));
    assert!(PositionFilter::UpTo(3).matches(i32::MIN));
    assert!(!PositionFilter::UpTo(3).matches(4));
}

#[test]
fn store_shift_closes_a_gap() {
    let mut store = sample();
    store.delete_one(cab(1), "B");
    assert_eq!(store.shift_positions(cab(1), PositionFilter::Above(2), -1), Ok(()));
    assert_eq!(rows(&store, cab(1)), vec![row("A", 1), row("C", 2), row("D", 3)]);
    assert_eq!(rows(&store, cab(2)), vec![row("X", 1)]);
}

#[test]
fn store_shift_opens_a_gap() {
    let mut store = sample();
    assert_eq!(store.shift_positions(cab(1), PositionFilter::Above(1), 10), Ok(()));
    assert_eq!(rows(&store, cab(1)), vec![row("A", 1), row("B", 12), row("C", 13), row("D", 14)]);
}

#[test]
fn store_shift_below() {
    let mut store = sample();
    assert_eq!(store.shift_positions(cab(1), PositionFilter::Below(3), -2), Ok(()));
    assert_eq!(rows(&store, cab(1)), vec![row("A", -1), row("B", 0), row("C", 3), row("D", 4)]);
}

#[test]
fn store_shift_conflict_changes_nothing() {
    let mut store = sample();
    assert_eq!(
        store.shift_positions(cab(1), PositionFilter::Exactly(3), -1),
        Err(Error::Conflict)
    );
    assert_eq!(rows(&store, cab(1)), vec![row("A", 1), row("B", 2), row("C", 3), row("D", 4)]);
}

#[test]
fn store_shift_out_of_range_is_internal() {
    let mut store = sample();
    assert_eq!(
        store.shift_positions(cab(1), PositionFilter::Above(3), i32::MAX),
        Err(Error::Internal)
    );
    assert_eq!(rows(&store, cab(1)), vec![row("A", 1), row("B", 2), row("C", 3), row("D", 4)]);
    store.insert(cab(3), "low", -1).unwrap();
    assert_eq!(
        store.shift_positions(cab(3), PositionFilter::UpTo(0), i32::MIN),
        Err(Error::Internal)
    );
    assert_eq!(rows(&store, cab(3)), vec![row("low", -1)]);
    assert_eq!(store.shift_positions(cab(1), PositionFilter::UpTo(1), i32::MIN), Ok(()));
    assert_eq!(store.position_of(cab(1), "A"), Ok(i32::MIN + 1));
}

#[test]
fn store_shift_of_no_row_is_accepted() {
    let mut store = sample();
    assert_eq!(store.shift_positions(cab(1), PositionFilter::Above(4), i32::MAX), Ok(()));
    assert_eq!(store.shift_positions(cab(3), PositionFilter::Above(0), 1), Ok(()));
    assert_eq!(rows(&store, cab(1)), vec![row("A", 1), row("B", 2), row("C", 3), row("D", 4)]);
}

#[test]
fn store_apply_carries_out_each_action() {
    let mut store = QueueStore::new();
    let c = cab(1);
    assert_eq!(
        store.apply(&StoreAction::Insert { cabinet: c, name: "A".to_string(), position: 1 }),
        Ok(())
    );
    assert_eq!(
        store.apply(&StoreAction::Insert { cabinet: c, name: "B".to_string(), position: 2 }),
        Ok(())
    );
    assert_eq!(
        store.apply(&StoreAction::Insert { cabinet: c, name: "B".to_string(), position: 3 }),
        Err(Error::Conflict)
    );
    assert_eq!(
        store.apply(&StoreAction::Shift { cabinet: c, filter: PositionFilter::Exactly(2), delta: -1 }),
        Err(Error::Conflict)
    );
    assert_eq!(store.apply(&StoreAction::DeleteOne { cabinet: c, name: "A".to_string() }), Ok(()));
    assert_eq!(
        store.apply(&StoreAction::Shift { cabinet: c, filter: PositionFilter::Above(1), delta: -1 }),
        Ok(())
    );
    assert_eq!(rows(&store, c), vec![row("B", 1)]);
    assert_eq!(
        store.apply(&StoreAction::DeleteWhere { cabinet: c, filter: PositionFilter::UpTo(1) }),
        Ok(())
    );
    assert!(rows(&store, c).is_empty());
}

#[test]
fn entry_new_and_duplicate() {
    let e = QueueEntry::new(cab(5), "Zed", 3);
    assert_eq!(e, QueueEntry { cabinet_id: cab(5), name: "Zed".to_string(), position: 3 });
    assert_eq!(e.duplicate(), e);
}
