use events::table::{HandleTable, NotFound, MAX_HANDLES};

#[test]
fn new_table_is_empty() {
    let table: HandleTable<u64> = HandleTable::new();
    assert!(!table.contains(0));
    assert!(table.get(0).is_none());
    assert!(!table.is_full());
}

#[test]
fn insert_issues_handles_from_zero() {
    let mut table: HandleTable<&'static str> = HandleTable::new();
    assert_eq!(table.insert("a"), 0);
    assert_eq!(table.insert("b"), 1);
    assert_eq!(table.insert("c"), 2);
    assert_eq!(table.get(0), Some(&"a"));
    assert_eq!(table.get(1), Some(&"b"));
    assert_eq!(table.get(2), Some(&"c"));
    assert_eq!(table.get(3), None);
}

#[test]
fn remove_returns_the_value_and_frees_the_handle() {
    let mut table: HandleTable<String> = HandleTable::new();
    let h = table.insert(String::from("kept"));
    assert_eq!(table.remove(h), Ok(String::from("kept")));
    assert!(!table.contains(h));
    assert_eq!(table.get(h), None);
}

#[test]
fn remove_of_unknown_handle_fails_and_changes_nothing() {
    let mut table: HandleTable<u8> = HandleTable::new();
    let h = table.insert(7);
    assert_eq!(table.remove(h + 1), Err(NotFound));
    assert_eq!(table.remove(u32::MAX), Err(NotFound));
    assert_eq!(table.get(h), Some(&7));
    assert_eq!(table.insert(8), h + 1);
}

#[test]
fn double_remove_fails() {
    let mut table: HandleTable<u8> = HandleTable::new();
    let h = table.insert(1);
    assert_eq!(table.remove(h), Ok(1));
    assert_eq!(table.remove(h), Err(NotFound));
}

#[test]
fn freed_handles_are_reused_last_freed_first() {
    let mut table: HandleTable<u32> = HandleTable::new();
    for i in 0..4 {
        assert_eq!(table.insert(i * 10), i);
    }
    assert_eq!(table.remove(1), Ok(10));
    assert_eq!(table.remove(3), Ok(30));
    assert_eq!(table.insert(33), 3);
    assert_eq!(table.insert(11), 1);
    assert_eq!(table.insert(44), 4);
    assert_eq!(table.get(3), Some(&33));
    assert_eq!(table.get(1), Some(&11));
    assert_eq!(table.get(0), Some(&0));
    assert_eq!(table.get(2), Some(&20));
}

#[test]
fn get_mut_changes_the_value_in_place() {
    let mut table: HandleTable<Vec<u8>> = HandleTable::new();
    let a = table.insert(vec![1]);
    let b = table.insert(vec![2]);
    table.get_mut(a).unwrap().push(9);
    assert_eq!(table.get(a), Some(&vec![1, 9]));
    assert_eq!(table.get(b), Some(&vec![2]));
    assert!(table.get_mut(b + 1).is_none());
    assert_eq!(table.insert(vec![]), b + 1);
}

#[test]
fn not_found_message() {
    assert_eq!(NotFound.message(), "invalid handle index");
    assert_eq!(MAX_HANDLES, 0xffff_ffff);
}
