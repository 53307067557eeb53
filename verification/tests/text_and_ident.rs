//! String helpers, query construction and identifier rendering.

use geocoder_core::text::{has_substring, starts_with, str_eq};
use geocoder_core::ident::to_hex32;
use geocoder_core::{uuid_v4, GeocoderQuery, LocationBias};

#[test]
fn test_str_helpers() {
    assert!(str_eq("child", "child"));
    assert!(!str_eq("child", "chile"));
    assert!(!str_eq("child", "chil"));
    assert!(starts_with("./2026/collection.json", "./"));
    assert!(!starts_with("2026/collection.json", "./"));
    assert!(has_substring("items/US.json", "/US.json"));
    assert!(!has_substring("items/USA.json", "/US.json"));
    assert!(has_substring("abc", ""));
}

#[test]
fn test_to_hex32_exact() {
    assert_eq!(to_hex32(0), "00000000000000000000000000000000");
    assert_eq!(to_hex32(1), "00000000000000000000000000000001");
    assert_eq!(to_hex32(255), "000000000000000000000000000000ff");
    assert_eq!(to_hex32(0xdead_beef), "000000000000000000000000deadbeef");
    assert_eq!(to_hex32(u128::MAX), "ffffffffffffffffffffffffffffffff");
}

#[test]
fn test_uuid_v4_shape() {
    let id = uuid_v4();
    assert_eq!(id.len(), 32);
    assert!(id.chars().all(|c| c.is_ascii_hexdigit()));
}

#[test]
fn test_query_builder() {
    let q = GeocoderQuery::new("new york");
    assert_eq!(q.text, "new york");
    assert_eq!(q.limit, 10);
    assert!(!q.autocomplete);
    assert!(matches!(q.bias, LocationBias::Unbiased));
    let q = q.with_limit(5).with_bias(LocationBias::Country("US".to_string()));
    assert_eq!(q.limit, 5);
    match &q.bias {
        LocationBias::Country(code) => assert_eq!(code, "US"),
        LocationBias::Unbiased => panic!("bias should be set"),
    }
}
