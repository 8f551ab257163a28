use protocol_schema_check::order::{compare_names, Position};
use protocol_schema_check::snapshot::{Snapshot, SnapshotEntry, SnapshotError};

fn entry(name: &str, hash: u32) -> SnapshotEntry {
    SnapshotEntry { name: name.to_string(), hash }
}

#[test]
fn names_are_ordered_byte_by_byte() {
    assert_eq!(compare_names("", ""), Position::Same);
    assert_eq!(compare_names("", "a"), Position::Before);
    assert_eq!(compare_names("a", ""), Position::After);
    assert_eq!(compare_names("Foo", "Foo"), Position::Same);
    assert_eq!(compare_names("Foo", "FooBar"), Position::Before);
    assert_eq!(compare_names("FooBar", "Foo"), Position::After);
    assert_eq!(compare_names("Bar", "Foo"), Position::Before);
    assert_eq!(compare_names("Zed", "abc"), Position::Before);
    assert_eq!(compare_names("abc", "Zed"), Position::After);
    assert_eq!(compare_names("z", "é"), Position::Before);
    assert_eq!(compare_names("é", "z"), Position::After);
}

#[test]
fn name_order_is_the_order_of_strings() {
    let names = ["", "A", "AB", "B", "a", "ab", "b", "é", "日本", "~", "TestStruct", "TestStruct2"];
    for a in names {
        for b in names {
            let expected = if a < b {
                Position::Before
            } else if a == b {
                Position::Same
            } else {
                Position::After
            };
            assert_eq!(compare_names(a, b), expected);
        }
    }
}

#[test]
fn new_snapshot_is_empty() {
    let snapshot = Snapshot::new();
    assert_eq!(snapshot.len(), 0);
    assert!(snapshot.entries().is_empty());
    assert_eq!(snapshot.get("Foo"), None);
}

#[test]
fn insert_keeps_lines_sorted_by_name() {
    let mut snapshot = Snapshot::new();
    snapshot.insert("Delta".to_string(), 4);
    snapshot.insert("Alpha".to_string(), 1);
    snapshot.insert("Charlie".to_string(), 3);
    snapshot.insert("Bravo".to_string(), 2);
    snapshot.insert("Echo".to_string(), 5);
    assert_eq!(
        snapshot.entries(),
        &vec![
            entry("Alpha", 1),
            entry("Bravo", 2),
            entry("Charlie", 3),
            entry("Delta", 4),
            entry("Echo", 5)
        ]
    );
    assert_eq!(snapshot.len(), 5);
    assert_eq!(snapshot.get("Alpha"), Some(1));
    assert_eq!(snapshot.get("Charlie"), Some(3));
    assert_eq!(snapshot.get("Echo"), Some(5));
    assert_eq!(snapshot.get("Foxtrot"), None);
    assert_eq!(snapshot.get("Aaa"), None);
    assert_eq!(snapshot.get("Bravo2"), None);
}

#[test]
fn insert_replaces_the_line_of_a_name() {
    let mut snapshot = Snapshot::new();
    snapshot.insert("Foo".to_string(), 111);
    snapshot.insert("Bar".to_string(), 7);
    snapshot.insert("Foo".to_string(), 222);
    assert_eq!(snapshot.entries(), &vec![entry("Bar", 7), entry("Foo", 222)]);
    assert_eq!(snapshot.get("Foo"), Some(222));
}

#[test]
fn snapshot_text_is_a_sorted_table() {
    let mut snapshot = Snapshot::new();
    snapshot.insert("TestStruct2".to_string(), 123456789);
    snapshot.insert("TestStruct".to_string(), 123456789);
    let text = snapshot.to_toml().ok().unwrap();
    assert_eq!(text, "TestStruct = 123456789\nTestStruct2 = 123456789\n");
}

#[test]
fn empty_snapshot_is_written_as_empty_text() {
    assert_eq!(Snapshot::new().to_toml().ok().unwrap(), "");
}

#[test]
fn snapshot_is_read_from_its_text() {
    let snapshot =
        Snapshot::from_toml("TestStruct2 = 5\nTestStruct = 123456789\nMax = 4294967295\n")
            .ok()
            .unwrap();
    assert_eq!(
        snapshot.entries(),
        &vec![entry("Max", 4294967295), entry("TestStruct", 123456789), entry("TestStruct2", 5)]
    );
}

#[test]
fn snapshot_survives_writing_and_reading() {
    let mut snapshot = Snapshot::new();
    snapshot.insert("b".to_string(), 0);
    snapshot.insert("a".to_string(), u32::MAX);
    snapshot.insert("Zeta".to_string(), 17);
    let text = snapshot.to_toml().ok().unwrap();
    let read = Snapshot::from_toml(&text).ok().unwrap();
    assert_eq!(read.entries(), snapshot.entries());
}

#[test]
fn malformed_text_is_refused() {
    assert!(matches!(Snapshot::from_toml("Foo = = 1"), Err(SnapshotError::Corrupt(_))));
    assert!(matches!(Snapshot::from_toml("Foo = \"text\""), Err(SnapshotError::Corrupt(_))));
    assert!(matches!(Snapshot::from_toml("Foo = -1"), Err(SnapshotError::Corrupt(_))));
    assert!(matches!(Snapshot::from_toml("Foo = 4294967296"), Err(SnapshotError::Corrupt(_))));
}

#[test]
fn empty_text_is_an_empty_snapshot() {
    assert_eq!(Snapshot::from_toml("").ok().unwrap().len(), 0);
}

#[test]
fn missing_snapshot_loads_as_empty() {
    let snapshot = Snapshot::load(None).ok().unwrap();
    assert_eq!(snapshot.len(), 0);
}

#[test]
fn stored_snapshot_loads_as_read() {
    let snapshot = Snapshot::load(Some("Foo = 111\n")).ok().unwrap();
    assert_eq!(snapshot.entries(), &vec![entry("Foo", 111)]);
    assert!(matches!(Snapshot::load(Some("Foo")), Err(SnapshotError::Corrupt(_))));
}

#[test]
fn lines_in_any_order_make_a_sorted_snapshot() {
    let snapshot = Snapshot::from_entries(&vec![
        entry("b", 2),
        entry("a", 1),
        entry("b", 3),
        entry("c", 4),
        entry("a", 5),
    ]);
    assert_eq!(snapshot.entries(), &vec![entry("a", 5), entry("b", 3), entry("c", 4)]);
    assert_eq!(Snapshot::from_entries(&vec![]).len(), 0);
}
