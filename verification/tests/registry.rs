use bindnames::import::{CName, CompositeKind, NameMapping, NameMappings};

#[test]
fn pass() {}

#[test]
fn validated_named_struct() {
    let c = CName { identifier: String::from("Bar"), aliased: false };
    assert_eq!(
        NameMapping::validated_original_name(Some(&c), CompositeKind::Struct),
        Some(String::from("struct Bar"))
    );
}

#[test]
fn validated_named_union() {
    let c = CName { identifier: String::from("U"), aliased: false };
    assert_eq!(
        NameMapping::validated_original_name(Some(&c), CompositeKind::Union),
        Some(String::from("union U"))
    );
}

#[test]
fn validated_aliased_name_keeps_identifier() {
    let c = CName { identifier: String::from("Bar"), aliased: true };
    assert_eq!(
        NameMapping::validated_original_name(Some(&c), CompositeKind::Struct),
        Some(String::from("Bar"))
    );
}

#[test]
fn validated_prefixed_name_not_doubled() {
    let c = CName { identifier: String::from("struct Bar"), aliased: false };
    assert_eq!(
        NameMapping::validated_original_name(Some(&c), CompositeKind::Struct),
        Some(String::from("struct Bar"))
    );
}

#[test]
fn validated_anonymous_is_none() {
    assert_eq!(
        NameMapping::validated_original_name(None, CompositeKind::Struct),
        None
    );
}

#[test]
fn anonymous_type_takes_later_alias() {
    let mut m = NameMappings::default();
    m.new_composite_found(1, CompositeKind::Struct, None, "Anon1");
    m.new_alias_found(2, "Foo", 1);
    let rec = m.get(1).expect("mapping for id 1");
    assert_eq!(
        rec.c_name,
        Some(CName { identifier: String::from("Foo"), aliased: true })
    );
    assert!(rec.aliases.is_empty());
}

#[test]
fn alias_before_type_matches_type_before_alias() {
    let mut first = NameMappings::default();
    first.new_alias_found(2, "Foo", 1);
    first.new_composite_found(1, CompositeKind::Struct, None, "Anon1");

    let mut second = NameMappings::default();
    second.new_composite_found(1, CompositeKind::Struct, None, "Anon1");
    second.new_alias_found(2, "Foo", 1);

    assert_eq!(first.get(1), second.get(1));
    assert_eq!(
        first.get(1).unwrap().c_name,
        Some(CName { identifier: String::from("Foo"), aliased: true })
    );
}

#[test]
fn named_events_are_order_independent() {
    let mut first = NameMappings::default();
    first.new_alias_found(3, "BarAlias", 2);
    first.new_composite_found(2, CompositeKind::Struct, Some("Bar"), "Bar");

    let mut second = NameMappings::default();
    second.new_composite_found(2, CompositeKind::Struct, Some("Bar"), "Bar");
    second.new_alias_found(3, "BarAlias", 2);

    assert_eq!(first.get(2), second.get(2));
    let rec = first.get(2).unwrap();
    assert_eq!(rec.aliases, vec![String::from("BarAlias")]);
    assert_eq!(
        rec.c_name,
        Some(CName { identifier: String::from("Bar"), aliased: false })
    );
}

#[test]
fn canonical_alias_is_suppressed() {
    let mut m = NameMappings::default();
    m.new_alias_found(3, "struct Bar", 2);
    m.new_alias_found(4, "BarAlias", 2);
    m.new_composite_found(2, CompositeKind::Struct, Some("Bar"), "Bar");
    let rec = m.get(2).expect("mapping for id 2");
    assert_eq!(rec.aliases, vec![String::from("BarAlias")]);
}

#[test]
fn anonymous_type_picks_least_alias() {
    let mut m = NameMappings::default();
    m.new_alias_found(5, "Zeta", 1);
    m.new_alias_found(6, "Alpha", 1);
    m.new_composite_found(1, CompositeKind::Union, None, "Anon1");
    let rec = m.get(1).expect("mapping for id 1");
    assert_eq!(
        rec.c_name,
        Some(CName { identifier: String::from("Alpha"), aliased: true })
    );
    assert_eq!(rec.aliases, vec![String::from("Zeta")]);
}

#[test]
fn duplicate_discovery_reports_previous() {
    let mut m = NameMappings::default();
    let none = m.new_composite_found(7, CompositeKind::Struct, Some("A"), "A");
    assert!(none.is_none());
    let prev = m.new_composite_found(7, CompositeKind::Struct, Some("B"), "B");
    let prev = prev.expect("displaced mapping");
    assert_eq!(prev.rust_name, String::from("A"));
    assert_eq!(m.get(7).unwrap().rust_name, String::from("B"));
}

#[test]
fn forget_unused_aliases_counts_strays() {
    let mut m = NameMappings::default();
    m.new_alias_found(1, "Stray", 99);
    assert_eq!(m.forget_unused_aliases(), 1);
    assert_eq!(m.forget_unused_aliases(), 0);
}

#[test]
fn forget_unused_aliases_keeps_types() {
    let mut m = NameMappings::default();
    m.new_composite_found(2, CompositeKind::Struct, Some("Bar"), "Bar");
    m.new_alias_found(3, "Stray", 99);
    m.new_alias_found(4, "Stray2", 98);
    assert_eq!(m.forget_unused_aliases(), 2);
    assert!(m.get(2).is_some());
    assert!(m.get(99).is_none());
}

#[test]
fn repeated_alias_recorded_once() {
    let mut m = NameMappings::default();
    m.new_composite_found(2, CompositeKind::Struct, Some("Bar"), "Bar");
    m.new_alias_found(3, "BarAlias", 2);
    m.new_alias_found(4, "BarAlias", 2);
    assert_eq!(m.get(2).unwrap().aliases, vec![String::from("BarAlias")]);
}
