use lifeboard::board::LiveSet;
use lifeboard::store::{cell_rows, find_record, Storage, StoreError, SQLITE_CONSTRAINT_UNIQUE};

fn memory() -> Storage {
    Storage::new(":memory:").unwrap()
}

fn board(cells: &[(i32, i32)]) -> LiveSet {
    LiveSet::from_cells(&cells.to_vec())
}

fn sorted(mut v: Vec<(i32, i32)>) -> Vec<(i32, i32)> {
    v.sort();
    v
}

#[test]
fn test_save() {
    let mut cells = LiveSet::new();
    cells.toggle(1, 2);
    cells.toggle(3, 4);
    match Storage::new("test.db") {
        Ok(mut storage) => {
            let r = storage.save("test_cfg", &cells);
            assert!(r.is_ok() || r == Err(StoreError::UniqueViolation));
        }
        Err(e) => assert_eq!(e, StoreError::StorageIO),
    }
}

#[test]
fn new_store_has_no_records() {
    let s = memory();
    assert_eq!(s.get_records(), Ok(vec![]));
}

#[test]
fn opening_fails_with_storage_io() {
    let r = Storage::new("/nonexistent-directory/of/this/machine/x.db");
    assert!(matches!(r, Err(StoreError::StorageIO)));
}

#[test]
fn save_then_load_gives_the_same_set() {
    let mut s = memory();
    let cells = [(0, 0), (-7, 3), (i32::MAX, i32::MIN), (4, 4), (1, -1)];
    let b = board(&cells);
    let id = s.save("drawing", &b).unwrap();
    assert!(id > 0);
    let back = s.load("drawing").unwrap();
    assert_eq!(sorted(back.clone()), sorted(cells.to_vec()));
    assert_eq!(LiveSet::from_cells(&back).live_cells(), b.live_cells());
}

#[test]
fn empty_board_round_trips() {
    let mut s = memory();
    s.save("nothing", &LiveSet::new()).unwrap();
    assert_eq!(s.load("nothing"), Ok(vec![]));
}

#[test]
fn saving_a_taken_name_fails_and_keeps_the_first() {
    let mut s = memory();
    let first = board(&[(1, 2), (3, 4)]);
    let second = board(&[(9, 9)]);
    s.save("a", &first).unwrap();
    assert_eq!(s.save("a", &second), Err(StoreError::UniqueViolation));
    assert_eq!(sorted(s.load("a").unwrap()), vec![(1, 2), (3, 4)]);
    assert_eq!(s.get_records().unwrap().len(), 1);
}

#[test]
fn delete_then_load_is_not_found() {
    let mut s = memory();
    s.save("a", &board(&[(1, 2)])).unwrap();
    assert_eq!(s.delete("a"), Ok(()));
    assert_eq!(s.load("a"), Err(StoreError::NotFound));
    assert_eq!(s.get_records(), Ok(vec![]));
}

#[test]
fn delete_removes_only_the_named_snapshot() {
    let mut s = memory();
    s.save("a", &board(&[(1, 2)])).unwrap();
    s.save("b", &board(&[(5, 6), (7, 8)])).unwrap();
    s.delete("a").unwrap();
    assert_eq!(sorted(s.load("b").unwrap()), vec![(5, 6), (7, 8)]);
    let names: Vec<String> = s.get_records().unwrap().into_iter().map(|r| r.1).collect();
    assert_eq!(names, vec!["b".to_string()]);
}

#[test]
fn a_deleted_name_can_be_saved_again() {
    let mut s = memory();
    s.save("a", &board(&[(1, 2)])).unwrap();
    s.delete("a").unwrap();
    s.save("a", &board(&[(3, 3)])).unwrap();
    assert_eq!(s.load("a"), Ok(vec![(3, 3)]));
}

#[test]
fn load_and_delete_of_an_unknown_name_are_not_found() {
    let mut s = memory();
    s.save("a", &board(&[(1, 2)])).unwrap();
    assert_eq!(s.load("b"), Err(StoreError::NotFound));
    assert_eq!(s.delete("b"), Err(StoreError::NotFound));
    assert_eq!(s.load("A"), Err(StoreError::NotFound));
    assert_eq!(s.load(""), Err(StoreError::NotFound));
    assert_eq!(sorted(s.load("a").unwrap()), vec![(1, 2)]);
}

#[test]
fn records_are_listed_in_insertion_order() {
    let mut s = memory();
    let b = LiveSet::new();
    let i1 = s.save("zeta", &b).unwrap();
    let i2 = s.save("alpha", &b).unwrap();
    let i3 = s.save("mid", &b).unwrap();
    assert_eq!(
        s.get_records().unwrap(),
        vec![(i1, "zeta".to_string()), (i2, "alpha".to_string()), (i3, "mid".to_string())]
    );
    assert!(i1 < i2 && i2 < i3);
}

#[test]
fn find_record_takes_the_first_exact_match() {
    let recs = vec![
        (4, "one".to_string()),
        (-2, "two".to_string()),
        (9, "one".to_string()),
        (0, "".to_string()),
    ];
    assert_eq!(find_record(&recs, "one"), Ok(4));
    assert_eq!(find_record(&recs, "two"), Ok(-2));
    assert_eq!(find_record(&recs, ""), Ok(0));
    assert_eq!(find_record(&recs, "On"), Err(StoreError::NotFound));
    assert_eq!(find_record(&recs, "one "), Err(StoreError::NotFound));
    assert_eq!(find_record(&vec![], "one"), Err(StoreError::NotFound));
}

#[test]
fn from_code_tells_a_taken_name_from_other_failures() {
    assert_eq!(SQLITE_CONSTRAINT_UNIQUE, 2067);
    assert_eq!(StoreError::from_code(Some(2067)), StoreError::UniqueViolation);
    assert_eq!(StoreError::from_code(Some(19)), StoreError::StorageIO);
    assert_eq!(StoreError::from_code(Some(1555)), StoreError::StorageIO);
    assert_eq!(StoreError::from_code(Some(0)), StoreError::StorageIO);
    assert_eq!(StoreError::from_code(None), StoreError::StorageIO);
}

#[test]
fn load_listed_goes_by_the_list_it_is_given() {
    let mut s = memory();
    let id = s.save("a", &board(&[(1, 2), (3, 4)])).unwrap();
    let listed = vec![(id, "a".to_string())];
    assert_eq!(sorted(s.load_listed(&listed, "a").unwrap()), vec![(1, 2), (3, 4)]);
    assert_eq!(s.load_listed(&listed, "b"), Err(StoreError::NotFound));
    assert_eq!(s.load_listed(&vec![], "a"), Err(StoreError::NotFound));
    // The first record of the name decides, and an id without cells has none.
    let doubled = vec![(id + 100, "a".to_string()), (id, "a".to_string())];
    assert_eq!(s.load_listed(&doubled, "a"), Ok(vec![]));
    let alias = vec![(id, "other".to_string())];
    assert_eq!(sorted(s.load_listed(&alias, "other").unwrap()), vec![(1, 2), (3, 4)]);
}

#[test]
fn delete_listed_goes_by_the_list_it_is_given() {
    let mut s = memory();
    let a = s.save("a", &board(&[(1, 2)])).unwrap();
    let b = s.save("b", &board(&[(5, 6)])).unwrap();
    let listed = vec![(a, "a".to_string()), (b, "b".to_string())];
    assert_eq!(s.delete_listed(&listed, "c"), Err(StoreError::NotFound));
    assert_eq!(s.delete_listed(&vec![], "a"), Err(StoreError::NotFound));
    assert_eq!(s.get_records().unwrap().len(), 2);
    assert_eq!(s.delete_listed(&listed, "b"), Ok(()));
    assert_eq!(s.get_records().unwrap(), vec![(a, "a".to_string())]);
    assert_eq!(s.load("b"), Err(StoreError::NotFound));
    assert_eq!(s.load("a"), Ok(vec![(1, 2)]));
}

#[test]
fn cell_rows_are_the_cells_under_the_record_id() {
    let b = board(&[(5, 1), (-3, 1), (i32::MAX, i32::MIN), (0, 0)]);
    assert_eq!(
        cell_rows(7, &b),
        vec![
            vec![7, i32::MAX as i64, i32::MIN as i64],
            vec![7, 0, 0],
            vec![7, -3, 1],
            vec![7, 5, 1],
        ]
    );
    assert_eq!(cell_rows(-1, &board(&[(2, 3)])), vec![vec![-1, 2, 3]]);
    assert_eq!(cell_rows(7, &LiveSet::new()), Vec::<Vec<i64>>::new());
}

#[test]
fn save_hands_every_cell_to_the_store() {
    let mut s = memory();
    let cells: Vec<(i32, i32)> = (0..40).map(|k| (k * 3 - 50, 7 - k)).collect();
    s.save("many", &board(&cells)).unwrap();
    let back = s.load("many").unwrap();
    assert_eq!(back.len(), 40);
    assert_eq!(sorted(back), sorted(cells));
}
