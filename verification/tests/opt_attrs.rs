//! The serializer: one attribute, whole mappings, ordering, escaping.

use web_client::attrs::AttrMap;
use web_client::opt_attrs::{opt_attr, opt_attrs};

#[test]
fn test_opt_attr_with_empty_string() {
    assert_eq!(opt_attr("foo", ""), String::from(""));
}

#[test]
fn test_opt_attr_with_non_empty_string() {
    assert_eq!(opt_attr("foo", "baz"), String::from("foo=\"baz\""));
}

#[test]
fn test_opt_attr_with_string_with_spaces() {
    assert_eq!(opt_attr("foo", "foo bar baz"), String::from("foo=\"foo bar baz\""));
}

#[test]
fn test_opt_attrs_with_empty_map() {
    assert_eq!(opt_attrs(&AttrMap::new()), String::from(""));
}

#[test]
fn test_opt_attrs_with_empty_map_empty_array() {
    let map = AttrMap::new();
    assert_eq!(map.len(), 0);
    assert_eq!(opt_attrs(&map), String::from(""));
}

#[test]
fn test_opt_attrs_with_single_attr_that_is_empty() {
    let map = AttrMap::new().insert("foo", String::from(""));
    assert_eq!(opt_attrs(&map), String::from(""));
}

#[test]
fn test_opt_attrs_with_multiple_attrs_that_are_empty() {
    let map = AttrMap::new()
        .insert("foo", String::from(""))
        .insert("baz", String::from(""));
    assert_eq!(opt_attrs(&map), String::from(""));
}

#[test]
fn test_opt_attrs_with_single_attribute_tuple() {
    let map = AttrMap::new().insert("foo", String::from("baz"));
    assert_eq!(opt_attrs(&map), String::from("foo=\"baz\""));
}

#[test]
fn test_opt_attrs_with_multiple_attribute_tuple() {
    let attrs = opt_attrs(
        &AttrMap::new()
            .insert("foo", String::from("baz"))
            .insert("bar", String::from("fuzz fuzz-baz")),
    );

    assert_eq!(attrs, String::from("bar=\"fuzz fuzz-baz\" foo=\"baz\""));
}

#[test]
fn test_opt_attr_escapes_double_quotes() {
    assert_eq!(opt_attr("a", "x\"y"), String::from("a=\"x&quot;y\""));
}

#[test]
fn test_opt_attrs_sorts_keys_ascending() {
    let map = AttrMap::new()
        .insert("hx-swap", String::from("s"))
        .insert("hx-swap-oob", String::from("o"))
        .insert("id", String::from("i"));
    assert_eq!(
        opt_attrs(&map),
        String::from("hx-swap=\"s\" hx-swap-oob=\"o\" id=\"i\"")
    );
}

#[test]
fn test_opt_attrs_is_idempotent() {
    let map = AttrMap::new()
        .insert("b", String::from("2"))
        .insert("a", String::from("1"));
    let first = opt_attrs(&map);
    let second = opt_attrs(&map);
    assert_eq!(first, second);
    assert_eq!(first, String::from("a=\"1\" b=\"2\""));
}

#[test]
fn test_opt_attrs_is_order_independent() {
    let forwards = AttrMap::new()
        .insert("a", String::from("1"))
        .insert("b", String::from("2"))
        .insert("c", String::from("3"));
    let backwards = AttrMap::new()
        .insert("c", String::from("3"))
        .insert("b", String::from("2"))
        .insert("a", String::from("1"));
    assert_eq!(opt_attrs(&forwards), opt_attrs(&backwards));
}

#[test]
fn test_opt_attrs_replaces_on_repeated_insert() {
    let map = AttrMap::new()
        .insert("k", String::from("old"))
        .insert("k", String::from("new"));
    assert_eq!(opt_attrs(&map), String::from("k=\"new\""));
}
