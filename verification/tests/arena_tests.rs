use tactics_core::{IdMap, IdMapBuilder};

#[test]
fn identifiers_are_assigned_in_insertion_order_from_zero() {
    let mut builder: IdMapBuilder<u32> = IdMapBuilder::new();
    assert_eq!(builder.add(10).raw(), 0);
    assert_eq!(builder.add(20).raw(), 1);
    assert_eq!(builder.add(30).raw(), 2);
    assert_eq!(builder.len(), 3);
}

#[test]
fn every_assigned_identifier_resolves_after_build() {
    let mut builder: IdMapBuilder<&str> = IdMapBuilder::new();
    let a = builder.add("first");
    let b = builder.add("second");
    let map: IdMap<&str> = builder.build();
    assert_eq!(map.len(), 2);
    assert_eq!(map.get(a), Some(&"first"));
    assert_eq!(map.get(b), Some(&"second"));
}

#[test]
fn lookup_of_unknown_identifier_yields_not_found() {
    let mut builder: IdMapBuilder<u32> = IdMapBuilder::new();
    builder.add(7);
    let map = builder.build();
    assert_eq!(map.get(tactics_core::Id::new(1)), None);
    assert_eq!(map.get(tactics_core::Id::new(usize::MAX)), None);
}

#[test]
fn identifier_equality_is_by_value() {
    let a: tactics_core::Id<u32> = tactics_core::Id::new(4);
    let b: tactics_core::Id<u32> = tactics_core::Id::new(4);
    let c: tactics_core::Id<u32> = tactics_core::Id::new(5);
    assert_eq!(a, b);
    assert_ne!(a, c);
}
