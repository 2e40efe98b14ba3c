use toyc::names::Table;

#[test]
fn a_table_finds_what_was_put_in() {
    let mut table: Table<u32> = Table::new();
    assert_eq!(table.len(), 0);
    assert_eq!(table.get("a"), None);
    table.insert("a", 1);
    table.insert("b", 2);
    table.insert("c", 3);
    assert_eq!(table.len(), 3);
    assert_eq!(table.get("a"), Some(&1));
    assert_eq!(table.get("b"), Some(&2));
    assert_eq!(table.get("c"), Some(&3));
    assert_eq!(table.get("d"), None);
    assert_eq!(table.find("b"), Some(1));
    assert_eq!(table.find("d"), None);
    assert!(table.contains("c"));
    assert!(!table.contains(""));
    assert_eq!(table.name(0), "a");
    assert_eq!(table.name(2), "c");
    assert_eq!(*table.value(1), 2);
}

#[test]
fn a_name_put_in_again_keeps_its_place() {
    let mut table: Table<u32> = Table::new();
    table.insert("a", 1);
    table.insert("b", 2);
    table.insert("a", 9);
    assert_eq!(table.len(), 2);
    assert_eq!(table.name(0), "a");
    assert_eq!(table.get("a"), Some(&9));
    assert_eq!(table.get("b"), Some(&2));
}

#[test]
fn a_removal_moves_the_last_entry() {
    let mut table: Table<u32> = Table::new();
    table.insert("a", 1);
    table.insert("b", 2);
    table.insert("c", 3);
    assert_eq!(table.remove("a"), Some(1));
    assert_eq!(table.len(), 2);
    assert_eq!(table.name(0), "c");
    assert_eq!(table.name(1), "b");
    assert_eq!(table.get("a"), None);
    assert_eq!(table.find("c"), Some(0));
    assert_eq!(table.get("b"), Some(&2));
    assert_eq!(table.remove("a"), None);
    assert_eq!(table.remove("b"), Some(2));
    assert_eq!(table.remove("c"), Some(3));
    assert_eq!(table.len(), 0);
    assert_eq!(table.find("c"), None);
    table.insert("c", 7);
    assert_eq!(table.find("c"), Some(0));
}

#[test]
fn names_are_told_apart_by_their_characters() {
    let mut table: Table<u32> = Table::new();
    let owned = String::from("na") + "me";
    table.insert(&owned, 1);
    assert_eq!(table.get("name"), Some(&1));
    assert_eq!(table.get("Name"), None);
    assert_eq!(table.get("name "), None);
    table.insert("é", 2);
    assert_eq!(table.get("é"), Some(&2));
    assert_eq!(table.get("e"), None);
}
