use near_stable_hasher::StableHasher;
use protocol_schema_check::descriptor::{Field, FieldType, TypeDescriptor, TypeIdentity, Variant};
use protocol_schema_check::fingerprint::{compute_hash, compute_type_hash, InProgress};
use protocol_schema_check::hasher::{fold_digest, write_str, write_word};
use protocol_schema_check::registry::Registry;
use std::hash::{Hash, Hasher};

const U16: TypeIdentity = TypeIdentity(2);
const U32: TypeIdentity = TypeIdentity(3);
const U64: TypeIdentity = TypeIdentity(4);
const I32: TypeIdentity = TypeIdentity(8);
const STRING: TypeIdentity = TypeIdentity(11);

/// A handle that no registry of these tests ever issues.
fn unregistered(n: usize) -> TypeIdentity {
    TypeIdentity(1_000_000 + n)
}

/// A registry that holds the primitive types, each as a struct without
/// fields under its own name.
fn primitives() -> Registry {
    let mut registry = Registry::new();
    for name in
        ["bool", "u8", "u16", "u32", "u64", "u128", "i8", "i16", "i32", "i64", "i128", "String"]
    {
        registry.register(TypeDescriptor::Struct { name: name.to_string(), fields: vec![] });
    }
    assert_eq!(registry.len(), 12);
    registry
}

fn field(name: &str, declared_name: &str, generic_params: Vec<TypeIdentity>) -> Field {
    Field {
        name: name.to_string(),
        ty: FieldType { declared_name: declared_name.to_string(), generic_params },
    }
}

fn strukt(name: &str, fields: Vec<Field>) -> TypeDescriptor {
    TypeDescriptor::Struct { name: name.to_string(), fields }
}

fn do_compute_type_hash(ty: TypeIdentity, registry: &Registry) -> u32 {
    let mut hasher = StableHasher::new();
    let mut types_in_compute = InProgress::new(registry);
    compute_type_hash(ty, registry, &mut types_in_compute, &mut hasher);
    hasher.finish() as u32
}

fn check_types(ty: TypeIdentity, other_ty: TypeIdentity, expect_equal: bool, registry: &Registry) {
    let hash = do_compute_type_hash(ty, registry);
    let other_hash = do_compute_type_hash(other_ty, registry);
    assert_eq!(hash == other_hash, expect_equal);
}

fn top_hash(ty: TypeIdentity, registry: &Registry) -> u32 {
    assert!(registry.contains(ty));
    let mut types_in_compute = InProgress::new(registry);
    compute_hash(ty, registry, &mut types_in_compute)
}

#[test]
fn test_identical() {
    let mut registry = primitives();
    let test_struct = registry.register(strukt(
        "TestStruct",
        vec![field("a", "u64", vec![U64]), field("b", "String", vec![STRING])],
    ));
    let test_struct2 = registry.register(strukt(
        "TestStruct",
        vec![field("a", "u64", vec![U64]), field("b", "String", vec![STRING])],
    ));
    check_types(test_struct, test_struct2, true, &registry);
}

#[test]
fn test_different_field_names() {
    let mut registry = primitives();
    let test_struct = registry.register(strukt(
        "TestStruct",
        vec![field("a", "u64", vec![U64]), field("c", "String", vec![STRING])],
    ));
    let test_struct2 = registry.register(strukt(
        "TestStruct",
        vec![field("a", "u64", vec![U64]), field("b", "String", vec![STRING])],
    ));
    check_types(test_struct, test_struct2, false, &registry);
}

#[test]
fn test_different_type_names() {
    let mut registry = primitives();
    let test_struct = registry.register(strukt(
        "TestStruct",
        vec![field("a", "TestU64", vec![U64]), field("b", "String", vec![STRING])],
    ));
    let test_struct2 = registry.register(strukt(
        "TestStruct2",
        vec![field("a", "u64", vec![U64]), field("b", "String", vec![STRING])],
    ));
    check_types(test_struct, test_struct2, false, &registry);
}

#[test]
fn test_different_struct_enum() {
    let mut registry = primitives();
    let empty_struct = registry.register(strukt("Empty", vec![]));
    let empty =
        registry.register(TypeDescriptor::Enum { name: "Empty".to_string(), variants: vec![] });
    check_types(empty, empty_struct, false, &registry);
}

#[test]
fn test_different_integers() {
    let mut registry = primitives();
    let short_unsigned = registry.register(strukt("Unsigned", vec![field("a", "u32", vec![U32])]));
    let unsigned = registry.register(strukt("Unsigned", vec![field("a", "u64", vec![U64])]));
    check_types(unsigned, short_unsigned, false, &registry);
}

#[test]
fn test_different_containers() {
    let mut registry = primitives();
    let vec_container = registry
        .register(strukt("Container", vec![field("a", "Vec", vec![unregistered(0), U32])]));
    let container = registry.register(strukt(
        "Container",
        vec![field("a", "HashMap", vec![unregistered(1), U32, U32])],
    ));
    check_types(container, vec_container, false, &registry);
}

#[test]
fn test_different_container_generics() {
    let mut registry = primitives();
    let vec_container = registry.register(strukt(
        "Container",
        vec![field("a", "Vec", vec![unregistered(0), unregistered(1), unregistered(2), U32])],
    ));
    let container = registry.register(strukt(
        "Container",
        vec![field("a", "Vec", vec![unregistered(3), unregistered(4), unregistered(5), I32])],
    ));
    check_types(container, vec_container, false, &registry);
}

#[test]
fn test_different_container_two_generics() {
    let mut registry = primitives();
    let map_container = registry.register(strukt(
        "Container",
        vec![field("a", "HashMap", vec![unregistered(0), U32, U16])],
    ));
    let container = registry.register(strukt(
        "Container",
        vec![field("a", "HashMap", vec![unregistered(1), U32, U32])],
    ));
    check_types(container, map_container, false, &registry);
}

#[test]
fn test_nested_containers_different_types() {
    let mut registry = primitives();
    let vec_container = registry.register(strukt(
        "Container",
        vec![field("a", "Vec", vec![unregistered(0), unregistered(1), U32])],
    ));
    let container = registry.register(strukt(
        "Container",
        vec![field("a", "Vec", vec![unregistered(2), unregistered(3), I32])],
    ));
    check_types(container, vec_container, false, &registry);
}

#[test]
fn test_nested_containers_different_containers_unsupported() {
    let mut registry = primitives();
    // `Vec<Vec<u32>>`: the type itself, `Vec<u32>`, `u32`.
    let vec_container = registry.register(strukt(
        "Container",
        vec![field("a", "Vec", vec![unregistered(0), unregistered(1), U32])],
    ));
    // `Vec<HashSet<u32>>`: the type itself, `HashSet<u32>`, `u32`.
    let container = registry.register(strukt(
        "Container",
        vec![field("a", "Vec", vec![unregistered(2), unregistered(3), U32])],
    ));
    check_types(container, vec_container, true, &registry);
}

#[test]
fn hasher_digest_is_sip_hash() {
    // The digest that `StableHasher` pins for the bytes 1 to 5, fed here as
    // one hash token and one more byte through the token writers.
    let mut reference = StableHasher::new();
    reference.write(&[1, 2, 3, 4, 5]);
    assert_eq!(reference.finish(), 12661990674860217757);

    let mut hasher = StableHasher::new();
    write_word(&mut hasher, 0x0403_0201);
    let mut expected = StableHasher::new();
    expected.write(&[1, 2, 3, 4]);
    assert_eq!(hasher.finish(), expected.finish());
    assert_ne!(hasher.finish(), 0x0403_0201);
}

#[test]
fn string_token_is_bytes_then_end_mark() {
    let mut hasher = StableHasher::new();
    write_str(&mut hasher, "struct");
    let mut expected = StableHasher::new();
    expected.write(b"struct");
    expected.write(&[0xff]);
    assert_eq!(hasher.finish(), expected.finish());

    let mut hashed = StableHasher::new();
    "struct".hash(&mut hashed);
    assert_eq!(hasher.finish(), hashed.finish());
}

#[test]
fn hash_token_is_how_integers_hash() {
    let mut hasher = StableHasher::new();
    write_word(&mut hasher, 0xdead_beef);
    let mut hashed = StableHasher::new();
    0xdead_beef_u32.hash(&mut hashed);
    assert_eq!(hasher.finish(), hashed.finish());

    let mut zero = StableHasher::new();
    write_word(&mut zero, 0);
    let mut hashed_zero = StableHasher::new();
    0.hash(&mut hashed_zero);
    assert_eq!(zero.finish(), hashed_zero.finish());
}

#[test]
fn struct_fingerprint_is_the_truncated_digest_of_its_tokens() {
    let mut registry = primitives();
    let foo = registry.register(strukt("Foo", vec![field("a", "u64", vec![U64])]));

    let mut inner = StableHasher::new();
    "struct".hash(&mut inner);
    "u64".hash(&mut inner);
    let u64_hash = inner.finish() as u32;
    assert_eq!(top_hash(U64, &registry), u64_hash);

    let mut outer = StableHasher::new();
    "struct".hash(&mut outer);
    "Foo".hash(&mut outer);
    "a".hash(&mut outer);
    "u64".hash(&mut outer);
    u64_hash.hash(&mut outer);
    assert_eq!(top_hash(foo, &registry), outer.finish() as u32);
}

#[test]
fn enum_fingerprint_is_the_truncated_digest_of_its_tokens() {
    let mut registry = primitives();
    let shape = registry.register(TypeDescriptor::Enum {
        name: "Shape".to_string(),
        variants: vec![
            Variant { name: "Dot".to_string(), fields: None },
            Variant {
                name: "Circle".to_string(),
                fields: Some(vec![field("0", "u32", vec![U32]), field("1", "Blob", vec![unregistered(7)])]),
            },
        ],
    });
    let u32_hash = top_hash(U32, &registry);

    let mut expected = StableHasher::new();
    "enum".hash(&mut expected);
    "Shape".hash(&mut expected);
    "Dot".hash(&mut expected);
    "Circle".hash(&mut expected);
    "0".hash(&mut expected);
    "u32".hash(&mut expected);
    u32_hash.hash(&mut expected);
    "1".hash(&mut expected);
    "Blob".hash(&mut expected);
    0.hash(&mut expected);
    assert_eq!(top_hash(shape, &registry), expected.finish() as u32);
}

#[test]
fn variant_without_fields_hashes_like_one_with_none() {
    let mut registry = primitives();
    let bare = registry.register(TypeDescriptor::Enum {
        name: "E".to_string(),
        variants: vec![Variant { name: "A".to_string(), fields: None }],
    });
    let empty = registry.register(TypeDescriptor::Enum {
        name: "E".to_string(),
        variants: vec![Variant { name: "A".to_string(), fields: Some(vec![]) }],
    });
    assert_eq!(top_hash(bare, &registry), top_hash(empty, &registry));
}

#[test]
fn type_in_progress_hashes_to_zero_and_guard_is_restored() {
    let registry = primitives();
    let mut types_in_compute = InProgress::new(&registry);
    types_in_compute.insert(U32);
    assert!(types_in_compute.contains(U32));
    assert_eq!(compute_hash(U32, &registry, &mut types_in_compute), 0);
    assert!(types_in_compute.contains(U32));
    assert_ne!(compute_hash(U64, &registry, &mut types_in_compute), 0);
    assert!(!types_in_compute.contains(U64));
    types_in_compute.remove(U32);
    assert!(!types_in_compute.contains(U32));
    assert!(!types_in_compute.contains(unregistered(0)));
}

#[test]
fn self_referential_type_terminates_with_zero_at_the_cycle() {
    let mut registry = primitives();
    // struct List { value: u64, next: Option<Box<List>> }
    let list = TypeIdentity(registry.len());
    let registered = registry.register(strukt(
        "List",
        vec![
            field("value", "u64", vec![U64]),
            field("next", "Option", vec![unregistered(0), unregistered(1), list]),
        ],
    ));
    assert_eq!(registered, list);
    let u64_hash = top_hash(U64, &registry);

    let mut expected = StableHasher::new();
    "struct".hash(&mut expected);
    "List".hash(&mut expected);
    "value".hash(&mut expected);
    "u64".hash(&mut expected);
    u64_hash.hash(&mut expected);
    "next".hash(&mut expected);
    "Option".hash(&mut expected);
    0.hash(&mut expected);
    0.hash(&mut expected);
    0.hash(&mut expected);
    assert_eq!(top_hash(list, &registry), expected.finish() as u32);
}

#[test]
fn mutually_recursive_types_terminate() {
    let mut registry = primitives();
    let a = TypeIdentity(registry.len());
    let b = TypeIdentity(registry.len() + 1);
    registry.register(strukt("A", vec![field("b", "B", vec![b])]));
    registry.register(strukt("B", vec![field("a", "A", vec![a])]));

    // Inside A, B is entered and meets A in progress.
    let mut b_inside_a = StableHasher::new();
    "struct".hash(&mut b_inside_a);
    "B".hash(&mut b_inside_a);
    "a".hash(&mut b_inside_a);
    "A".hash(&mut b_inside_a);
    0.hash(&mut b_inside_a);
    let mut expected = StableHasher::new();
    "struct".hash(&mut expected);
    "A".hash(&mut expected);
    "b".hash(&mut expected);
    "B".hash(&mut expected);
    (b_inside_a.finish() as u32).hash(&mut expected);
    assert_eq!(top_hash(a, &registry), expected.finish() as u32);
    assert_ne!(top_hash(a, &registry), top_hash(b, &registry));
}

#[test]
fn sibling_fields_of_one_type_are_both_entered() {
    let mut registry = primitives();
    let pair = registry.register(strukt(
        "Pair",
        vec![field("left", "u32", vec![U32]), field("right", "u32", vec![U32])],
    ));
    let u32_hash = top_hash(U32, &registry);
    let mut expected = StableHasher::new();
    "struct".hash(&mut expected);
    "Pair".hash(&mut expected);
    "left".hash(&mut expected);
    "u32".hash(&mut expected);
    u32_hash.hash(&mut expected);
    "right".hash(&mut expected);
    "u32".hash(&mut expected);
    u32_hash.hash(&mut expected);
    assert_eq!(top_hash(pair, &registry), expected.finish() as u32);
}

#[test]
fn unregistered_handle_hashes_as_zero() {
    let registry = primitives();
    let mut expected = StableHasher::new();
    0.hash(&mut expected);
    assert_eq!(do_compute_type_hash(unregistered(0), &registry), expected.finish() as u32);
    assert_eq!(
        do_compute_type_hash(unregistered(0), &registry),
        do_compute_type_hash(unregistered(1), &registry)
    );
}

#[test]
fn registry_hands_out_positions_and_finds_descriptors() {
    let mut registry = Registry::new();
    assert_eq!(registry.len(), 0);
    assert!(registry.get(TypeIdentity(0)).is_none());
    let first = registry.register(strukt("First", vec![]));
    let second = registry.register(strukt("Second", vec![]));
    assert_eq!(first, TypeIdentity(0));
    assert_eq!(second, TypeIdentity(1));
    assert_eq!(registry.len(), 2);
    assert!(registry.contains(second));
    assert!(!registry.contains(TypeIdentity(2)));
    assert_eq!(registry.get(second).unwrap().name(), "Second");
    assert_eq!(registry.descriptor(first).name(), "First");
    assert!(registry.get(TypeIdentity(2)).is_none());
}

#[test]
fn digest_is_cut_down_to_its_low_half() {
    assert_eq!(fold_digest(0), 0);
    assert_eq!(fold_digest(0xffff_ffff), 0xffff_ffff);
    assert_eq!(fold_digest(0x1_0000_0000), 0);
    assert_eq!(fold_digest(0x1234_5678_9abc_def0), 0x9abc_def0);
    assert_eq!(fold_digest(u64::MAX), u32::MAX);
    assert_eq!(fold_digest(12661990674860217757), 3294238109);
}

#[test]
fn fingerprints_have_their_known_values() {
    let mut registry = primitives();
    let foo = registry.register(strukt("Foo", vec![field("a", "u64", vec![U64])]));
    let empty_struct = registry.register(strukt("Empty", vec![]));
    let empty_enum =
        registry.register(TypeDescriptor::Enum { name: "Empty".to_string(), variants: vec![] });
    assert_eq!(top_hash(U64, &registry), 3667915829);
    assert_eq!(top_hash(U32, &registry), 2441702020);
    assert_eq!(top_hash(foo, &registry), 1087008632);
    assert_eq!(top_hash(empty_struct, &registry), 1908401467);
    assert_eq!(top_hash(empty_enum, &registry), 3959698383);
}

#[test]
fn different_field_names_can_share_a_fingerprint() {
    // 32 bits leave room for collisions: these two structs differ in a field
    // name, are hashed from different streams, and still share a fingerprint.
    let mut registry = Registry::new();
    let one = registry.register(strukt("S", vec![field("f103548", "Blob", vec![unregistered(0)])]));
    let other =
        registry.register(strukt("S", vec![field("f106786", "Blob", vec![unregistered(0)])]));
    assert_eq!(top_hash(one, &registry), 2447715544);
    assert_eq!(top_hash(other, &registry), 2447715544);
}

#[test]
fn identical_declarations_on_a_cycle_can_differ() {
    // Both declarations name the first type as their parameter: the first
    // meets itself in progress there, the second enters the first.
    let mut registry = Registry::new();
    let first = TypeIdentity(0);
    registry.register(strukt("Node", vec![field("next", "Box", vec![unregistered(0), first])]));
    let second = registry
        .register(strukt("Node", vec![field("next", "Box", vec![unregistered(0), first])]));
    assert_ne!(top_hash(first, &registry), top_hash(second, &registry));

    // Each naming itself, they cannot be told apart.
    let mut registry = Registry::new();
    let first = TypeIdentity(0);
    let second = TypeIdentity(1);
    registry.register(strukt("Node", vec![field("next", "Box", vec![unregistered(0), first])]));
    registry.register(strukt("Node", vec![field("next", "Box", vec![unregistered(1), second])]));
    assert_eq!(top_hash(first, &registry), top_hash(second, &registry));
}
