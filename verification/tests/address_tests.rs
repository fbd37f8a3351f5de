use grid_product::address::{address, namespace_prefix, to_hex, Namespace};

#[test]
fn address_is_deterministic() {
    let a1 = address(Namespace::Product, "723382885088");
    let a2 = address(Namespace::Product, "723382885088");
    assert_eq!(a1, a2);
}

#[test]
fn address_is_70_chars_and_carries_prefix() {
    let a = address(Namespace::Product, "723382885088");
    assert_eq!(a.chars().count(), 70);
    assert!(a.starts_with("621dee02"));
    let b = address(Namespace::Schema, "723382885088");
    assert_eq!(b.chars().count(), 70);
    assert!(b.starts_with("621dee01"));
    let c = address(Namespace::Pike, "alpha");
    assert_eq!(c.chars().count(), 70);
    assert!(c.starts_with("cad11d"));
}

#[test]
fn distinct_identifiers_get_distinct_addresses() {
    let a = address(Namespace::Product, "723382885088");
    let b = address(Namespace::Product, "723382885089");
    assert_ne!(a, b);
}

#[test]
fn distinct_namespaces_get_distinct_addresses() {
    let a = address(Namespace::Product, "x");
    let b = address(Namespace::Schema, "x");
    let c = address(Namespace::Pike, "x");
    assert_ne!(a, b);
    assert_ne!(a, c);
    assert_ne!(b, c);
    assert!(!a.starts_with("621dee01"));
    assert!(!b.starts_with("621dee02"));
}

#[test]
fn namespace_prefixes_are_fixed() {
    assert_eq!(namespace_prefix(Namespace::Pike), "cad11d");
    assert_eq!(namespace_prefix(Namespace::Schema), "621dee01");
    assert_eq!(namespace_prefix(Namespace::Product), "621dee02");
}

#[test]
fn hex_expansion_is_exact() {
    assert_eq!(to_hex(&vec![0x00, 0xff, 0x12, 0xab]), "00ff12ab");
    assert_eq!(to_hex(&vec![]), "");
}
