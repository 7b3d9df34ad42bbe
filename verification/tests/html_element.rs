//! The base element rendered end to end.

use web_client::attrs::Attrs;
use web_client::components::{modal_target, TableHeading};
use web_client::html_element::{HtmlElement, HtmlElementProps};
use web_client::schema::{to_bag, VocabFields};

#[test]
fn test_with_no_attrs() {
    let props = HtmlElementProps::new();
    let html = HtmlElement(&props);

    assert_eq!(html, String::from("<div data-rsx=\"HtmlElement\"></div>"));
}

#[test]
fn test_with_tag_set() {
    let mut props = HtmlElementProps::new();
    props.tag = String::from("button");
    let html = HtmlElement(&props);

    assert_eq!(html, String::from("<button data-rsx=\"HtmlElement\"></button>"));
}

#[test]
fn test_with_children() {
    let mut props = HtmlElementProps::new();
    props.tag = String::from("button");
    props.children = String::from("<p>Paragraph text.</p>");
    let html = HtmlElement(&props);

    assert_eq!(
        html,
        String::from("<button data-rsx=\"HtmlElement\"><p>Paragraph text.</p></button>")
    );
}

#[test]
fn test_with_data_attributes() {
    let mut props = HtmlElementProps::new();
    props.tag = String::from("button");
    props.attrs = Attrs::with("data-foo", String::from("baz"));
    props.children = String::from("<h1>Header text.</h1>");
    let html = HtmlElement(&props);

    assert_eq!(
        html,
        String::from(
            "<button data-foo=\"baz\" data-rsx=\"HtmlElement\"><h1>Header text.</h1></button>"
        )
    );
}

#[test]
fn test_with_attrs_with_omit() {
    // Emulate usage by a component: the `class` attribute is applied
    // manually, and the rest of the props pass through with `class`
    // omitted.
    let outer_fields = VocabFields::new()
        .set("class", String::from("THIS_CLASS_SHOULD_BE_OMITTED"))
        .unwrap()
        .set("id", String::from("set-id"))
        .unwrap()
        .set("role", String::from("set-role"))
        .unwrap();
    let outer = to_bag(&outer_fields, &Attrs::default());

    let mut props = HtmlElementProps::new();
    props.vocab_fields = VocabFields::new()
        .set("class", String::from("hard-coded-class"))
        .unwrap();
    props.attrs = outer.omit(vec![String::from("class")]);
    props.children = String::from("What an awesome element!");
    let html = HtmlElement(&props);

    assert_eq!(
        html,
        String::from(
            "<div class=\"hard-coded-class\" data-rsx=\"HtmlElement\" id=\"set-id\" role=\"set-role\">What an awesome element!</div>"
        )
    );
}

#[test]
fn test_element_map_keeps_explicit_data_rsx() {
    let mut props = HtmlElementProps::new();
    props.attrs = Attrs::with("data-rsx", String::from("Custom"));
    let html = HtmlElement(&props);

    assert_eq!(html, String::from("<div data-rsx=\"Custom\"></div>"));
}

#[test]
fn test_quotes_in_values_are_escaped() {
    let mut props = HtmlElementProps::new();
    props.attrs = Attrs::with("data-msg", String::from("say \"hi\""));
    let html = HtmlElement(&props);

    assert_eq!(
        html,
        String::from(
            "<div data-msg=\"say &quot;hi&quot;\" data-rsx=\"HtmlElement\"></div>"
        )
    );
}

#[test]
fn test_modal_target_names_the_live_region() {
    assert_eq!(modal_target(), String::from("#modal-live-region"));
}

#[test]
fn test_table_heading_constructors() {
    assert!(matches!(
        TableHeading::title(String::from("Name")),
        TableHeading::Title(t) if t == String::from("Name")
    ));
    assert!(matches!(
        TableHeading::empty(String::from("Actions")),
        TableHeading::Empty(t) if t == String::from("Actions")
    ));
}
