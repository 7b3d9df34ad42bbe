//! The attribute bag: immutable updates, omissions, lookups, rendering.

use web_client::attrs::Attrs;
use web_client::concat_attribute;
use web_client::opt_attrs::opt_attrs;

#[test]
fn test_with_creates_single_binding() {
    let bag = Attrs::with("data-foo", String::from("baz"));
    assert_eq!(opt_attrs(&bag.to_hashmap()), String::from("data-foo=\"baz\""));
}

#[test]
fn test_set_is_immutable_update() {
    let bag = Attrs::with("a", String::from("1"));
    let bigger = bag.set("b", String::from("2"));
    assert_eq!(opt_attrs(&bag.to_hashmap()), String::from("a=\"1\""));
    assert_eq!(opt_attrs(&bigger.to_hashmap()), String::from("a=\"1\" b=\"2\""));
}

#[test]
fn test_set_last_write_wins() {
    let bag = Attrs::with("k", String::from("1")).set("k", String::from("2"));
    assert_eq!(bag.get("k"), Some(&String::from("2")));
}

#[test]
fn test_set_if_applies_only_when_condition_holds() {
    let bag = Attrs::default()
        .set_if("a", String::from("1"), true)
        .set_if("b", String::from("2"), false);
    assert_eq!(bag.get("a"), Some(&String::from("1")));
    assert_eq!(bag.get("b"), None);
}

#[test]
fn test_get_hides_omitted_names() {
    let bag = Attrs::with("a", String::from("1")).omit(vec![String::from("a")]);
    assert_eq!(bag.get("a"), None);
}

#[test]
fn test_omit_replaces_earlier_omission_set() {
    let bag = Attrs::with("a", String::from("1"))
        .omit(vec![String::from("a")])
        .omit(vec![String::from("b")]);
    assert_eq!(bag.get("a"), Some(&String::from("1")));
}

#[test]
fn test_to_hashmap_drops_omitted_names() {
    let bag = Attrs::with("a", String::from("1"))
        .set("b", String::from("2"))
        .omit(vec![String::from("a")]);
    assert_eq!(opt_attrs(&bag.to_hashmap()), String::from("b=\"2\""));
}

#[test]
fn test_to_hashmap_excluding_drops_extra_names() {
    let bag = Attrs::with("a", String::from("1")).set("b", String::from("2"));
    let map = bag.to_hashmap_excluding(vec![String::from("b")]);
    assert_eq!(opt_attrs(&map), String::from("a=\"1\""));
}

#[test]
fn test_to_attr_string_renders_visible_mapping() {
    let bag = Attrs::with("b", String::from("2"))
        .set("a", String::from("1"))
        .omit(vec![String::from("b")]);
    assert_eq!(bag.to_attr_string(), String::from("a=\"1\""));
}

#[test]
fn test_clone_preserves_bindings_and_omissions() {
    let bag = Attrs::with("a", String::from("1")).omit(vec![String::from("a")]);
    let copy = bag.clone();
    assert_eq!(copy.get("a"), None);
    assert_eq!(opt_attrs(&copy.to_hashmap()), String::from(""));
}

#[test]
fn test_concat_attribute_joins_both_sides() {
    assert_eq!(concat_attribute("a", Some(&String::from("b"))), String::from("a b"));
}

#[test]
fn test_concat_attribute_field_alone() {
    assert_eq!(concat_attribute("a", None), String::from("a"));
    assert_eq!(concat_attribute("a", Some(&String::from(""))), String::from("a"));
}

#[test]
fn test_concat_attribute_bag_alone() {
    assert_eq!(concat_attribute("", Some(&String::from("b"))), String::from("b"));
}

#[test]
fn test_concat_attribute_both_empty() {
    assert_eq!(concat_attribute("", None), String::from(""));
}

#[test]
fn test_concat_attribute_trims_whitespace() {
    assert_eq!(
        concat_attribute("  a\t", Some(&String::from("\n b "))),
        String::from("a b")
    );
    assert_eq!(concat_attribute("  ", Some(&String::from(" "))), String::from(""));
}
