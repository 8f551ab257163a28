use protocol_schema_check::descriptor::{Field, FieldType, TypeDescriptor, TypeIdentity};
use protocol_schema_check::fingerprint::{compute_hash, InProgress};
use protocol_schema_check::gate::{compare, current_hashes, run_gate, Change};
use protocol_schema_check::registry::Registry;
use protocol_schema_check::report::push_decimal;
use protocol_schema_check::snapshot::{Snapshot, SnapshotEntry};

fn strukt(name: &str, fields: Vec<(&str, &str, Vec<TypeIdentity>)>) -> TypeDescriptor {
    TypeDescriptor::Struct {
        name: name.to_string(),
        fields: fields
            .into_iter()
            .map(|(name, declared_name, generic_params)| Field {
                name: name.to_string(),
                ty: FieldType { declared_name: declared_name.to_string(), generic_params },
            })
            .collect(),
    }
}

/// `u64` and `struct Foo { a: u64 }`.
fn foo_registry() -> (Registry, TypeIdentity) {
    let mut registry = Registry::new();
    let u64_id = registry.register(strukt("u64", vec![]));
    let foo = registry.register(strukt("Foo", vec![("a", "u64", vec![u64_id])]));
    (registry, foo)
}

fn hash_of(registry: &Registry, id: TypeIdentity) -> u32 {
    let mut types_in_compute = InProgress::new(registry);
    compute_hash(id, registry, &mut types_in_compute)
}

fn snapshot(lines: &[(&str, u32)]) -> Snapshot {
    let mut snapshot = Snapshot::new();
    for (name, hash) in lines {
        snapshot.insert(name.to_string(), *hash);
    }
    snapshot
}

#[test]
fn current_hashes_hold_every_registered_name() {
    let (registry, foo) = foo_registry();
    let current = current_hashes(&registry);
    assert_eq!(
        current.entries(),
        &vec![
            SnapshotEntry { name: "Foo".to_string(), hash: hash_of(&registry, foo) },
            SnapshotEntry { name: "u64".to_string(), hash: hash_of(&registry, TypeIdentity(0)) },
        ]
    );
}

#[test]
fn later_registration_of_a_name_stays() {
    let mut registry = Registry::new();
    registry.register(strukt("Twice", vec![("a", "X", vec![])]));
    let later = registry.register(strukt("Twice", vec![("b", "Y", vec![])]));
    let current = current_hashes(&registry);
    assert_eq!(current.len(), 1);
    assert_eq!(current.get("Twice"), Some(hash_of(&registry, later)));
}

#[test]
fn new_type_is_reported_and_offered() {
    let (registry, foo) = foo_registry();
    let foo_hash = hash_of(&registry, foo);
    let u64_hash = hash_of(&registry, TypeIdentity(0));
    let stored = snapshot(&[("u64", u64_hash)]);

    let report = run_gate(&registry, &stored);
    assert!(report.has_changes());
    assert_eq!(report.exit_code(), 1);
    assert_eq!(report.changes, vec![Change::Added { name: "Foo".to_string(), hash: foo_hash }]);
    assert_eq!(report.changes[0].line(), format!("New struct: Foo with hash {}", foo_hash));
    assert!(report.changes[0].line().starts_with("New struct: Foo"));
    let candidate = report.candidate.unwrap();
    assert_eq!(candidate.get("Foo"), Some(foo_hash));
    assert_eq!(
        candidate.to_toml().ok().unwrap(),
        format!("Foo = {}\nu64 = {}\n", foo_hash, u64_hash)
    );
}

#[test]
fn mismatch_names_both_values() {
    let stored = snapshot(&[("Foo", 111)]);
    let current = snapshot(&[("Foo", 222)]);
    let changes = compare(&stored, &current);
    assert_eq!(changes, vec![Change::Mismatch { name: "Foo".to_string(), stored: 111, current: 222 }]);
    assert_eq!(changes[0].line(), "Hash mismatch for Foo: stored 111, current 222");
}

#[test]
fn stored_mismatch_is_found_by_the_run() {
    let (registry, foo) = foo_registry();
    let foo_hash = hash_of(&registry, foo);
    let u64_hash = hash_of(&registry, TypeIdentity(0));
    let stored = snapshot(&[("Foo", foo_hash.wrapping_add(1)), ("u64", u64_hash)]);
    let report = run_gate(&registry, &stored);
    assert!(report.has_changes());
    assert_eq!(
        report.changes,
        vec![Change::Mismatch {
            name: "Foo".to_string(),
            stored: foo_hash.wrapping_add(1),
            current: foo_hash
        }]
    );
    assert!(report.candidate.is_some());
}

#[test]
fn type_no_longer_registered_is_reported_as_removed() {
    let (registry, foo) = foo_registry();
    let stored = snapshot(&[
        ("Foo", hash_of(&registry, foo)),
        ("Gone", 5),
        ("u64", hash_of(&registry, TypeIdentity(0))),
    ]);
    let report = run_gate(&registry, &stored);
    assert!(report.has_changes());
    assert_eq!(report.exit_code(), 1);
    assert_eq!(report.changes, vec![Change::Removed { name: "Gone".to_string() }]);
    assert_eq!(report.changes[0].line(), "Struct removed: Gone");
    assert_eq!(report.candidate.unwrap().get("Gone"), None);
}

#[test]
fn unchanged_registry_passes_twice_and_offers_nothing() {
    let (registry, _) = foo_registry();
    let stored = current_hashes(&registry);
    for _ in 0..2 {
        let report = run_gate(&registry, &stored);
        assert!(!report.has_changes());
        assert_eq!(report.exit_code(), 0);
        assert!(report.changes.is_empty());
        assert!(report.candidate.is_none());
    }
}

#[test]
fn first_run_reports_every_type_as_new() {
    let (registry, foo) = foo_registry();
    let report = run_gate(&registry, &Snapshot::new());
    assert_eq!(
        report.changes,
        vec![
            Change::Added { name: "Foo".to_string(), hash: hash_of(&registry, foo) },
            Change::Added { name: "u64".to_string(), hash: hash_of(&registry, TypeIdentity(0)) },
        ]
    );
}

#[test]
fn empty_registry_and_empty_snapshot_pass() {
    let report = run_gate(&Registry::new(), &Snapshot::new());
    assert!(!report.has_changes());
    assert!(report.candidate.is_none());
}

#[test]
fn findings_come_by_current_name_then_removals_by_stored_name() {
    let stored = snapshot(&[("A", 1), ("B", 2), ("C", 3), ("Y", 8), ("X", 9)]);
    let current = snapshot(&[("E", 5), ("D", 4), ("C", 30), ("B", 2), ("A", 10)]);
    assert_eq!(
        compare(&stored, &current),
        vec![
            Change::Mismatch { name: "A".to_string(), stored: 1, current: 10 },
            Change::Mismatch { name: "C".to_string(), stored: 3, current: 30 },
            Change::Added { name: "D".to_string(), hash: 4 },
            Change::Added { name: "E".to_string(), hash: 5 },
            Change::Removed { name: "X".to_string() },
            Change::Removed { name: "Y".to_string() },
        ]
    );
    assert!(compare(&stored, &stored).is_empty());
}

#[test]
fn numbers_are_written_in_decimal() {
    for (n, expected) in
        [(0, "0"), (7, "7"), (10, "10"), (99, "99"), (100, "100"), (123456789, "123456789"), (u32::MAX, "4294967295")]
    {
        let mut text = String::from("x");
        push_decimal(&mut text, n);
        assert_eq!(text, format!("x{}", expected));
    }
}

#[test]
fn lines_hold_extreme_values() {
    let change = Change::Mismatch { name: "".to_string(), stored: 0, current: u32::MAX };
    assert_eq!(change.line(), "Hash mismatch for : stored 0, current 4294967295");
    let change = Change::Added { name: "日本".to_string(), hash: 0 };
    assert_eq!(change.line(), "New struct: 日本 with hash 0");
}
