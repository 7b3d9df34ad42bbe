//! A declarative attribute-composition engine.
//!
//! The crate merges values for a closed set of named element attributes
//! coming from several overlapping sources — explicit component fields, a
//! dynamic pass-through bag, and caller-specified omissions — into one
//! deterministic key/value set, and renders that set as a stable, ordered
//! attribute string.

use vstd::prelude::*;
use vstd::string::*;

pub mod attrs;
pub mod components;
pub mod html_element;
pub mod opt_attrs;
pub mod schema;
pub mod text;
pub mod vocab;

use crate::text::trim;
use crate::text::trimmed;

verus! {

/// The concatenation policy for one attribute key: the explicit field value
/// and the bag value, both trimmed of surrounding whitespace, joined by one
/// space when both are non-empty; whichever is non-empty otherwise; empty
/// when both are empty.  The result never carries leading or trailing
/// whitespace and the field value always comes first.
pub open spec fn concat_policy(field: Seq<char>, attr: Seq<char>) -> Seq<char> {
    let f = trimmed(field);
    let a = trimmed(attr);
    if f.len() > 0 && a.len() > 0 {
        f + seq![' '] + a
    } else if f.len() > 0 {
        f
    } else {
        a
    }
}

/// The character sequence an optional bag value stands for: absence means
/// the empty value.
pub open spec fn opt_string_view(o: Option<&String>) -> Seq<char> {
    match o {
        Some(v) => v@,
        None => Seq::<char>::empty(),
    }
}

/// Merge an explicit field value with the matching bag value under the
/// concatenation policy.
pub fn concat_attribute(field_value: &str, attribute_value: Option<&String>) -> (r: String)
    ensures
        r@ == concat_policy(field_value@, opt_string_view(attribute_value)),
{
    let f = trim(field_value);
    let a = match attribute_value {
        Some(v) => trim(v.as_str()),
        None => "",
    };
    proof {
        reveal_strlit("");
        assert(""@ =~= Seq::<char>::empty());
    }
    if !f.is_empty() && !a.is_empty() {
        let mut out = String::from_str(f);
        out.append(" ");
        out.append(a);
        proof {
            reveal_strlit(" ");
            assert(" "@ =~= seq![' ']);
            assert(out@ =~= f@ + seq![' '] + a@);
        }
        out
    } else if !f.is_empty() {
        String::from_str(f)
    } else {
        String::from_str(a)
    }
}

} // verus!
