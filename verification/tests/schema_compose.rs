//! The schema generator and the composition pipeline: field validation,
//! merging, omission, reserved names, pass-through.

use web_client::attrs::Attrs;
use web_client::opt_attrs::opt_attrs;
use web_client::schema::{compose, to_bag, VocabFields};
use web_client::vocab::{attr_name_of, field_ident_of, is_full_vocab_name, is_reserved_name, is_vocab_name};

#[test]
fn test_set_accepts_vocabulary_names() {
    let fields = VocabFields::new().set("class", String::from("x")).unwrap();
    assert_eq!(fields.get("class"), Some(&String::from("x")));
    assert_eq!(fields.get("id"), Some(&String::from("")));
}

#[test]
fn test_set_rejects_names_outside_the_vocabulary() {
    let err = match VocabFields::new().set("bogus", String::from("x")) {
        Err(e) => e,
        Ok(_) => panic!("a name outside the vocabulary must be rejected"),
    };
    assert_eq!(err.name, String::from("bogus"));
}

#[test]
fn test_reserved_names_are_not_typed_fields() {
    let err = match VocabFields::new().set("for", String::from("x")) {
        Err(e) => e,
        Ok(_) => panic!("a reserved name must not be a typed field"),
    };
    assert_eq!(err.name, String::from("for"));
    assert_eq!(VocabFields::new().get("type"), None);
}

#[test]
fn test_compose_merges_field_and_bag_value() {
    let fields = VocabFields::new().set("class", String::from("foo")).unwrap();
    let bag = Attrs::default().set("class", String::from("bar"));
    let map = compose(&fields, &bag, &Vec::new()).unwrap();
    assert_eq!(map.get("class"), Some(&String::from("foo bar")));
}

#[test]
fn test_compose_rejects_omit_outside_vocabulary() {
    let fields = VocabFields::new();
    let bag = Attrs::default();
    let err = match compose(&fields, &bag, &vec![String::from("nope")]) {
        Err(e) => e,
        Ok(_) => panic!("an omit name outside the vocabulary must be rejected"),
    };
    assert_eq!(err.name, String::from("nope"));
}

#[test]
fn test_compose_omits_key_from_both_sources() {
    let fields = VocabFields::new()
        .set("class", String::from("should-be-dropped"))
        .unwrap();
    let bag = Attrs::default().set("class", String::from("also-dropped"));
    let map = compose(&fields, &bag, &vec![String::from("class")]).unwrap();
    assert_eq!(map.get("class"), None);
    assert_eq!(opt_attrs(&map), String::from(""));
}

#[test]
fn test_compose_keeps_empty_values_out() {
    let fields = VocabFields::new();
    let bag = Attrs::default();
    let map = compose(&fields, &bag, &Vec::new()).unwrap();
    assert_eq!(opt_attrs(&map), String::from(""));
}

#[test]
fn test_compose_passes_custom_names_through() {
    let fields = VocabFields::new();
    let bag = Attrs::default().set("data-foo", String::from("v"));
    let map = compose(&fields, &bag, &Vec::new()).unwrap();
    assert_eq!(map.get("data-foo"), Some(&String::from("v")));
    assert_eq!(opt_attrs(&map), String::from("data-foo=\"v\""));
}

#[test]
fn test_compose_passthrough_respects_bag_omission() {
    let fields = VocabFields::new();
    let bag = Attrs::default()
        .set("data-foo", String::from("v"))
        .omit(vec![String::from("data-foo")]);
    let map = compose(&fields, &bag, &Vec::new()).unwrap();
    assert_eq!(map.get("data-foo"), None);
}

#[test]
fn test_compose_reads_reserved_names_from_the_bag() {
    let fields = VocabFields::new();
    let bag = Attrs::default()
        .set("for", String::from("name-input"))
        .set("type", String::from("text"));
    let map = compose(&fields, &bag, &Vec::new()).unwrap();
    assert_eq!(map.get("for"), Some(&String::from("name-input")));
    assert_eq!(map.get("type"), Some(&String::from("text")));
}

#[test]
fn test_compose_can_omit_reserved_names() {
    let fields = VocabFields::new();
    let bag = Attrs::default().set("for", String::from("name-input"));
    let map = compose(&fields, &bag, &vec![String::from("for")]).unwrap();
    assert_eq!(map.get("for"), None);
}

#[test]
fn test_to_bag_carries_composed_mapping() {
    let fields = VocabFields::new().set("id", String::from("the-id")).unwrap();
    let inner = Attrs::default().set("data-x", String::from("y"));
    let bag = to_bag(&fields, &inner);
    assert_eq!(bag.get("id"), Some(&String::from("the-id")));
    assert_eq!(bag.get("data-x"), Some(&String::from("y")));
}

#[test]
fn test_vocabulary_membership() {
    assert!(is_vocab_name("hx-swap-oob"));
    assert!(is_vocab_name("aria-orientation"));
    assert!(!is_vocab_name("for"));
    assert!(!is_vocab_name("data-foo"));
    assert!(is_reserved_name("for"));
    assert!(is_reserved_name("type"));
    assert!(!is_reserved_name("id"));
    assert!(is_full_vocab_name("type"));
    assert!(is_full_vocab_name("class"));
    assert!(!is_full_vocab_name("hx-bogus"));
}

#[test]
fn test_field_name_mapping_is_bijective_on_vocabulary() {
    assert_eq!(field_ident_of("aria-labelledby"), String::from("aria_labelledby"));
    assert_eq!(attr_name_of("aria_labelledby"), String::from("aria-labelledby"));
    assert_eq!(attr_name_of(&field_ident_of("hx-push-url")), String::from("hx-push-url"));
    assert_eq!(field_ident_of("id"), String::from("id"));
}
