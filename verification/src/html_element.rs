//! The base element: the extended props schema instance every component
//! renders through, and its verified render to a markup string.

use vstd::prelude::*;
use vstd::string::*;

use crate::attrs::AttrMap;
use crate::attrs::Attrs;
use crate::opt_attrs::opt_attrs;
use crate::opt_attrs::serialize_spec;
use crate::schema::compose;
use crate::schema::composed_spec;
use crate::schema::VocabFields;

verus! {

/// The extended field set of the base element: its explicit fields, one
/// field per vocabulary name, and the pass-through bag.
pub struct HtmlElementProps {
    /// The rendered content between the opening and closing tag.
    pub children: String,
    /// The marker value rendered under `data-rsx` when nothing else binds
    /// that name.
    pub component_name: String,
    /// The element's tag.
    pub tag: String,
    /// The generated vocabulary fields.
    pub vocab_fields: VocabFields,
    /// The pass-through bag.
    pub attrs: Attrs,
}

impl HtmlElementProps {
    /// The default element: a `div` marked `HtmlElement`, no content, all
    /// fields empty, an empty bag.
    pub fn new() -> (r: Self)
        ensures
            r.children@ == Seq::<char>::empty(),
            r.component_name@ == "HtmlElement"@,
            r.tag@ == "div"@,
            forall|k: Seq<char>|
                #[trigger] r.vocab_fields.fields_map().dom().contains(k)
                    ==> r.vocab_fields.fields_map()[k] == Seq::<char>::empty(),
            r.attrs.value_map() == Map::<Seq<char>, Seq<char>>::empty(),
            r.attrs.omitted() == Set::<Seq<char>>::empty(),
    {
        HtmlElementProps {
            children: String::new(),
            component_name: String::from_str("HtmlElement"),
            tag: String::from_str("div"),
            vocab_fields: VocabFields::new(),
            attrs: Attrs::default(),
        }
    }

    /// The canonical attribute mapping of the props alone: fields and bag
    /// composed, nothing omitted.
    pub open spec fn composed_map(self) -> Map<Seq<char>, Seq<char>> {
        composed_spec(self.vocab_fields, self.attrs, Set::<Seq<char>>::empty())
    }

    /// The mapping the element renders: the composed mapping, and the
    /// component marker under `data-rsx` where nothing else binds it.
    pub open spec fn element_map(self) -> Map<Seq<char>, Seq<char>> {
        if self.composed_map().dom().contains("data-rsx"@) {
            self.composed_map()
        } else {
            self.composed_map().insert("data-rsx"@, self.component_name@)
        }
    }

    /// The composed mapping of the props, as a value.
    pub fn html_attrs_to_hashmap(&self) -> (r: AttrMap)
        ensures
            r@ == self.composed_map(),
    {
        let omit: Vec<String> = Vec::new();
        let m = match compose(&self.vocab_fields, &self.attrs, &omit) {
            Ok(m) => m,
            Err(_) => {
                proof {
                    assert(false);
                }
                AttrMap::new()
            },
        };
        proof {
            assert(crate::attrs::str_views(omit@) =~= Seq::<Seq<char>>::empty());
            assert(crate::attrs::str_views(omit@).to_set() =~= Set::<Seq<char>>::empty());
        }
        m
    }
}

/// Render the element: its tag, its serialized attribute mapping with the
/// `data-rsx` marker, its content, its closing tag.
#[allow(non_snake_case)]
pub fn HtmlElement(props: &HtmlElementProps) -> (r: String)
    ensures
        r@ == "<"@ + props.tag@ + " "@ + serialize_spec(props.element_map()) + ">"@
            + props.children@ + "</"@ + props.tag@ + ">"@,
        crate::opt_attrs::is_canonical_listing(
            props.element_map(),
            crate::opt_attrs::canonical_listing_of(props.element_map()),
        ),
{
    let m = props.html_attrs_to_hashmap();
    let marked = match m.get("data-rsx") {
        Some(_) => m,
        None => m.insert("data-rsx", props.component_name.clone()),
    };
    proof {
        assert(marked@ == props.element_map());
    }
    let attr_str = opt_attrs(&marked);
    let mut out = String::from_str("<");
    out.append(props.tag.as_str());
    out.append(" ");
    out.append(attr_str.as_str());
    out.append(">");
    out.append(props.children.as_str());
    out.append("</");
    out.append(props.tag.as_str());
    out.append(">");
    out
}

} // verus!
