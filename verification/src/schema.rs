//! The props schema and the composition pipeline: the generated vocabulary
//! field set, the definition-time validation of omission directives, and
//! the merge of explicit fields, bag values and omissions into one
//! canonical attribute mapping.

use vstd::prelude::*;
use vstd::string::*;

use crate::attrs::contains_str;
use crate::attrs::str_views;
use crate::attrs::AttrMap;
use crate::attrs::Attrs;
use crate::concat_policy;
use crate::opt_string_view;
use crate::vocab::in_full_vocab;
use crate::vocab::lemma_name_index;
use crate::vocab::lemma_name_index_contains;
use crate::vocab::lemma_name_index_of_first_match;
use crate::vocab::name_index;
use crate::vocab::reserved_spec;
use crate::vocab::vocab_names;
use crate::vocab::vocab_spec;
use crate::text::str_eq;

verus! {

/// The definition-time error: an omission directive named a field outside
/// the closed vocabulary.  Construction aborts; no partial schema or bag
/// is built.
#[derive(Debug)]
pub struct SchemaError {
    /// The offending name.
    pub name: String,
}

/// The generated part of a component's extended field set: one optional
/// string field per vocabulary name, all empty by default.
pub struct VocabFields {
    values: Vec<String>,
}

impl VocabFields {
    #[verifier::type_invariant]
    spec fn wf(self) -> bool {
        self.values@.len() == vocab_spec().len()
    }

    /// The stored field values, in vocabulary order.
    pub closed spec fn field_seq(self) -> Seq<Seq<char>> {
        str_views(self.values@)
    }

    /// The fields as a mapping from vocabulary name to value.
    pub open spec fn fields_map(self) -> Map<Seq<char>, Seq<char>> {
        Map::new(
            |k: Seq<char>| vocab_spec().contains(k),
            |k: Seq<char>| self.field_seq()[name_index(vocab_spec(), k)],
        )
    }

    /// The field set with every field empty.
    pub fn new() -> (r: Self)
        ensures
            forall|k: Seq<char>|
                #[trigger] r.fields_map().dom().contains(k) ==> r.fields_map()[k]
                    == Seq::<char>::empty(),
    {
        let names = vocab_names();
        let count = names.len();
        let mut values: Vec<String> = Vec::new();
        let mut i: usize = 0;
        while i < count
            invariant
                0 <= i <= count,
                values@.len() == i,
                forall|j: int| 0 <= j < i ==> (#[trigger] values@[j])@ == Seq::<char>::empty(),
            decreases count - i,
        {
            values.push(String::new());
            i = i + 1;
        }
        let r = VocabFields { values };
        proof {
            assert forall|k: Seq<char>| #[trigger] r.fields_map().dom().contains(
                k,
            ) implies r.fields_map()[k] == Seq::<char>::empty() by {
                lemma_name_index_contains(vocab_spec(), k);
                lemma_name_index(vocab_spec(), k);
            }
        }
        r
    }

    /// The field set with one field changed.  A name outside the vocabulary
    /// is a definition-time error that identifies the name.
    pub fn set(self, name: &str, value: String) -> (r: Result<Self, SchemaError>)
        ensures
            vocab_spec().contains(name@) ==> match r {
                Ok(f) => f.fields_map() == self.fields_map().insert(name@, value@),
                Err(_) => false,
            },
            !vocab_spec().contains(name@) ==> match r {
                Ok(_) => false,
                Err(e) => e.name@ == name@,
            },
    {
        proof {
            use_type_invariant(&self);
        }
        let names = vocab_names();
        let count = names.len();
        let VocabFields { values: mut values } = self;
        let mut i: usize = 0;
        while i < count
            invariant
                0 <= i <= count,
                count == vocab_spec().len(),
                names@.len() == vocab_spec().len(),
                values@ == self.values@,
                values@.len() == vocab_spec().len(),
                forall|l: int| 0 <= l < names@.len() ==> (#[trigger] names@[l])@ == vocab_spec()[l],
                forall|j: int| 0 <= j < i ==> vocab_spec()[j] != name@,
            decreases count - i,
        {
            if str_eq(names[i], name) {
                proof {
                    assert(vocab_spec()[i as int] == name@);
                    lemma_name_index_of_first_match(vocab_spec(), name@, i as int);
                    assert(vocab_spec().contains(name@));
                }
                values.remove(i);
                values.insert(i, value);
                let r = VocabFields { values };
                proof {
                    assert(r.field_seq() =~= self.field_seq().update(i as int, value@));
                    assert forall|k: Seq<char>| #[trigger] vocab_spec().contains(
                        k,
                    ) implies r.fields_map()[k] == self.fields_map().insert(name@, value@)[k] by {
                        lemma_name_index_contains(vocab_spec(), k);
                        lemma_name_index(vocab_spec(), k);
                        if k == name@ {
                        } else {
                            assert(vocab_spec()[name_index(vocab_spec(), k)] == k);
                            assert(name_index(vocab_spec(), k) != i as int);
                        }
                    }
                    assert(r.fields_map() =~= self.fields_map().insert(name@, value@));
                }
                return Ok(r);
            }
            i = i + 1;
        }
        proof {
            assert(forall|j: int| 0 <= j < vocab_spec().len() ==> vocab_spec()[j] != name@);
            assert(!vocab_spec().contains(name@));
        }
        Err(SchemaError { name: String::from_str(name) })
    }

    /// Read one field.
    pub fn get(&self, name: &str) -> (r: Option<&String>)
        ensures
            match r {
                Some(v) => vocab_spec().contains(name@) && v@ == self.fields_map()[name@],
                None => !vocab_spec().contains(name@),
            },
    {
        proof {
            use_type_invariant(self);
        }
        let names = vocab_names();
        let count = names.len();
        let mut i: usize = 0;
        while i < count
            invariant
                0 <= i <= count,
                count == vocab_spec().len(),
                names@.len() == vocab_spec().len(),
                self.values@.len() == vocab_spec().len(),
                forall|l: int| 0 <= l < names@.len() ==> (#[trigger] names@[l])@ == vocab_spec()[l],
                forall|j: int| 0 <= j < i ==> vocab_spec()[j] != name@,
            decreases count - i,
        {
            if str_eq(names[i], name) {
                proof {
                    assert(vocab_spec()[i as int] == name@);
                    lemma_name_index_of_first_match(vocab_spec(), name@, i as int);
                    assert(vocab_spec().contains(name@));
                    assert(self.field_seq()[i as int] == self.values@[i as int]@);
                }
                return Some(&self.values[i]);
            }
            i = i + 1;
        }
        proof {
            assert(forall|j: int| 0 <= j < vocab_spec().len() ==> vocab_spec()[j] != name@);
            assert(!vocab_spec().contains(name@));
        }
        None
    }
}

impl Clone for VocabFields {
    /// A field set with the same values.
    fn clone(&self) -> (r: Self)
        ensures
            r.fields_map() == self.fields_map(),
    {
        proof {
            use_type_invariant(self);
        }
        let values = crate::attrs::clone_strings(&self.values);
        let r = VocabFields { values };
        proof {
            assert(r.field_seq() == self.field_seq());
        }
        r
    }
}

impl Default for VocabFields {
    /// The field set with every field empty.
    fn default() -> (r: Self)
        ensures
            forall|k: Seq<char>|
                #[trigger] r.fields_map().dom().contains(k) ==> r.fields_map()[k]
                    == Seq::<char>::empty(),
    {
        VocabFields::new()
    }
}

/// The bag value for a key, as the concatenation policy sees it: the bound
/// value when the key is visible, the empty value otherwise.
pub open spec fn bag_opt(bag: Attrs, k: Seq<char>) -> Seq<char> {
    match bag.spec_get(k) {
        Some(v) => v,
        None => Seq::<char>::empty(),
    }
}

/// The merged value of a vocabulary key: explicit field and bag value
/// under the concatenation policy.
pub open spec fn merged_value(fields: VocabFields, bag: Attrs, k: Seq<char>) -> Seq<char> {
    concat_policy(fields.fields_map()[k], bag_opt(bag, k))
}

/// Whether the composed mapping binds a key.
pub open spec fn composed_has(
    fields: VocabFields,
    bag: Attrs,
    omit: Set<Seq<char>>,
    k: Seq<char>,
) -> bool {
    if omit.contains(k) {
        false
    } else if vocab_spec().contains(k) {
        merged_value(fields, bag, k).len() > 0
    } else {
        bag.visible().dom().contains(k)
    }
}

/// The value the composed mapping binds a key to.
pub open spec fn composed_val(fields: VocabFields, bag: Attrs, k: Seq<char>) -> Seq<char> {
    if vocab_spec().contains(k) {
        merged_value(fields, bag, k)
    } else {
        bag.visible()[k]
    }
}

/// The canonical attribute set: for each vocabulary key not omitted, the
/// merged value where it is non-empty; for each reserved or pass-through
/// key not omitted, the bag's visible value verbatim.
pub open spec fn composed_spec(fields: VocabFields, bag: Attrs, omit: Set<Seq<char>>) -> Map<
    Seq<char>,
    Seq<char>,
> {
    Map::new(
        |k: Seq<char>| composed_has(fields, bag, omit, k),
        |k: Seq<char>| composed_val(fields, bag, k),
    )
}

/// The composed mapping restricted to the first `upto` vocabulary names.
pub open spec fn vocab_part(
    fields: VocabFields,
    bag: Attrs,
    omit: Set<Seq<char>>,
    upto: int,
) -> Map<Seq<char>, Seq<char>> {
    Map::new(
        |k: Seq<char>| vocab_spec().take(upto).contains(k) && composed_has(fields, bag, omit, k),
        |k: Seq<char>| composed_val(fields, bag, k),
    )
}

/// The composed mapping restricted to the vocabulary names and the first
/// `upto` reserved names.
pub open spec fn reserved_part(
    fields: VocabFields,
    bag: Attrs,
    omit: Set<Seq<char>>,
    upto: int,
) -> Map<Seq<char>, Seq<char>> {
    Map::new(
        |k: Seq<char>|
            (vocab_spec().contains(k) || reserved_spec().take(upto).contains(k)) && composed_has(
                fields,
                bag,
                omit,
                k,
            ),
        |k: Seq<char>| composed_val(fields, bag, k),
    )
}

/// The composition pipeline.  The per-call omit list is validated against
/// the full vocabulary; a name outside it is a definition-time error that
/// identifies the first offending name.  On success the result is the
/// canonical attribute set of `composed_spec`.
pub fn compose(fields: &VocabFields, bag: &Attrs, omit: &Vec<String>) -> (r: Result<
    AttrMap,
    SchemaError,
>)
    ensures
        (forall|i: int|
            0 <= i < omit@.len() ==> in_full_vocab((#[trigger] omit@[i])@)) <==> r is Ok,
        match r {
            Ok(m) => m@ == composed_spec(*fields, *bag, str_views(omit@).to_set()),
            Err(e) => exists|i: int|
                0 <= i < omit@.len() && (#[trigger] omit@[i])@ == e.name@ && !in_full_vocab(
                    omit@[i]@,
                ) && forall|j: int| 0 <= j < i ==> in_full_vocab(omit@[j]@),
        },
{
    broadcast use vstd::seq_lib::group_seq_properties;

    // Validate the omission directives.
    let omit_count = omit.len();
    let mut v: usize = 0;
    while v < omit_count
        invariant
            0 <= v <= omit_count,
            omit_count == omit@.len(),
            forall|j: int| 0 <= j < v ==> in_full_vocab((#[trigger] omit@[j])@),
        decreases omit_count - v,
    {
        if !crate::vocab::is_full_vocab_name(omit[v].as_str()) {
            return Err(SchemaError { name: omit[v].clone() });
        }
        v = v + 1;
    }
    let ghost omit_set = str_views(omit@).to_set();
    proof {
        assert forall|k: Seq<char>| #[trigger] omit_set.contains(k) implies in_full_vocab(k) by {
            crate::attrs::lemma_str_views_to_set(omit@, k);
            let i = choose|i: int| 0 <= i < omit@.len() && omit@[i]@ == k;
            assert(in_full_vocab(omit@[i]@));
        }
    }

    // Merge each vocabulary key under the concatenation policy.
    let names = vocab_names();
    let count = names.len();
    let mut m = AttrMap::new();
    let mut i: usize = 0;
    proof {
        assert(vocab_spec().take(0) =~= Seq::<Seq<char>>::empty());
        assert(m@ =~= vocab_part(*fields, *bag, omit_set, 0));
    }
    while i < count
        invariant
            0 <= i <= count,
            count == vocab_spec().len(),
            names@.len() == vocab_spec().len(),
            forall|l: int| 0 <= l < names@.len() ==> (#[trigger] names@[l])@ == vocab_spec()[l],
            omit_set == str_views(omit@).to_set(),
            m@ == vocab_part(*fields, *bag, omit_set, i as int),
        decreases count - i,
    {
        let name = names[i];
        let ghost ki = vocab_spec()[i as int];
        proof {
            assert(name@ == ki);
            assert(vocab_spec().contains(ki)) by {
                assert(vocab_spec()[i as int] == ki);
            }
            assert(vocab_spec().take(i + 1) =~= vocab_spec().take(i as int).push(ki));
        }
        if !contains_str(omit, name) {
            let fval = match fields.get(name) {
                Some(fv) => fv.as_str(),
                None => {
                    proof {
                        assert(false);
                    }
                    ""
                },
            };
            let bval = bag.get(name);
            let merged = crate::concat_attribute(fval, bval);
            proof {
                assert(opt_string_view(bval) == bag_opt(*bag, ki));
                assert(merged@ == merged_value(*fields, *bag, ki));
            }
            if !merged.as_str().is_empty() {
                let prev = m;
                m = prev.insert(name, merged);
                proof {
                    let target = vocab_part(*fields, *bag, omit_set, i + 1);
                    assert(!omit_set.contains(ki));
                    assert(merged_value(*fields, *bag, ki).len() > 0);
                    assert forall|k: Seq<char>| #[trigger] m@.dom().contains(k)
                        == target.dom().contains(k) && (m@.dom().contains(k) ==> m@[k]
                        == target[k]) by {
                        if k == ki {
                            assert(vocab_spec().take(i + 1).contains(ki)) by {
                                assert(vocab_spec().take(i + 1)[i as int] == ki);
                            }
                            assert(composed_has(*fields, *bag, omit_set, ki));
                            assert(m@[ki] == merged@);
                            assert(composed_val(*fields, *bag, ki) == merged_value(
                                *fields,
                                *bag,
                                ki,
                            ));
                        } else {
                            assert(vocab_spec().take(i as int).push(ki).contains(k)
                                == vocab_spec().take(i as int).contains(k));
                            assert(vocab_spec().take(i + 1).contains(k) == vocab_spec().take(
                                i as int,
                            ).contains(k));
                        }
                    }
                    assert(m@ =~= target);
                }
            } else {
                proof {
                    assert(m@ =~= vocab_part(*fields, *bag, omit_set, i + 1));
                }
            }
        } else {
            proof {
                assert(m@ =~= vocab_part(*fields, *bag, omit_set, i + 1));
            }
        }
        i = i + 1;
    }
    proof {
        assert(vocab_spec().take(count as int) =~= vocab_spec());
        assert(reserved_spec().take(0) =~= Seq::<Seq<char>>::empty());
        assert(m@ =~= reserved_part(*fields, *bag, omit_set, 0));
    }

    // Carry the two reserved keys verbatim from the bag.
    proof {
        assert(reserved_spec().take(1) =~= Seq::<Seq<char>>::empty().push("for"@));
        assert(reserved_spec().take(2) =~= reserved_spec().take(1).push("type"@));
    }
    if !contains_str(omit, "for") && !crate::vocab::is_vocab_name("for") {
        match bag.get("for") {
            Some(val) => {
                let prev = m;
                m = prev.insert("for", val.clone());
                proof {
                    assert(m@ =~= reserved_part(*fields, *bag, omit_set, 1));
                }
            },
            None => {
                proof {
                    assert(m@ =~= reserved_part(*fields, *bag, omit_set, 1));
                }
            },
        }
    } else {
        proof {
            assert(m@ =~= reserved_part(*fields, *bag, omit_set, 1));
        }
    }
    if !contains_str(omit, "type") && !crate::vocab::is_vocab_name("type") {
        match bag.get("type") {
            Some(val) => {
                let prev = m;
                m = prev.insert("type", val.clone());
                proof {
                    assert(m@ =~= reserved_part(*fields, *bag, omit_set, 2));
                }
            },
            None => {
                proof {
                    assert(m@ =~= reserved_part(*fields, *bag, omit_set, 2));
                }
            },
        }
    } else {
        proof {
            assert(m@ =~= reserved_part(*fields, *bag, omit_set, 2));
        }
    }

    // Merge the pass-through keys: bag entries outside the full vocabulary.
    let mut exclude: Vec<String> = Vec::new();
    let mut e: usize = 0;
    while e < count
        invariant
            0 <= e <= count,
            count == vocab_spec().len(),
            names@.len() == vocab_spec().len(),
            forall|l: int| 0 <= l < names@.len() ==> (#[trigger] names@[l])@ == vocab_spec()[l],
            exclude@.len() == e,
            forall|l: int| 0 <= l < e ==> (#[trigger] exclude@[l])@ == vocab_spec()[l],
        decreases count - e,
    {
        exclude.push(String::from_str(names[e]));
        e = e + 1;
    }
    exclude.push(String::from_str("for"));
    exclude.push(String::from_str("type"));
    proof {
        let ex = str_views(exclude@).to_set();
        assert forall|k: Seq<char>| #[trigger] ex.contains(k) implies in_full_vocab(k) by {
            crate::attrs::lemma_str_views_to_set(exclude@, k);
            let l = choose|l: int| 0 <= l < exclude@.len() && exclude@[l]@ == k;
            if l < count as int {
                assert(vocab_spec()[l] == k);
            } else if l == count as int {
                assert(reserved_spec()[0] == k);
            } else {
                assert(reserved_spec()[1] == k);
            }
        }
        assert forall|k: Seq<char>| in_full_vocab(k) implies ex.contains(k) by {
            crate::attrs::lemma_str_views_to_set(exclude@, k);
            if vocab_spec().contains(k) {
                let l = choose|l: int| 0 <= l < vocab_spec().len() && vocab_spec()[l] == k;
                assert(exclude@[l]@ == k);
            } else {
                let l = choose|l: int| 0 <= l < reserved_spec().len() && reserved_spec()[l] == k;
                assert(exclude@[count as int + l]@ == k);
            }
        }
    }
    let pt = bag.to_hashmap_excluding(exclude);
    let result = m.extend(&pt);
    proof {
        let ghost ex = str_views(exclude@).to_set();
        let target = composed_spec(*fields, *bag, omit_set);
        assert forall|k: Seq<char>| #[trigger] result@.dom().contains(k) == target.dom().contains(
            k,
        ) && (result@.dom().contains(k) ==> result@[k] == target[k]) by {
            assert(reserved_spec().take(2) =~= reserved_spec());
            if in_full_vocab(k) {
                assert(!pt@.dom().contains(k));
            } else {
                assert(!(vocab_spec().contains(k) || reserved_spec().contains(k)));
                assert(!m@.dom().contains(k));
                assert(!omit_set.contains(k));
                assert(pt@.dom().contains(k) == bag.visible().dom().contains(k));
            }
        }
        assert(result@ =~= target);
    }
    Ok(result)
}

/// The conversion from an extended schema to a bag: the composed mapping
/// with nothing omitted, as a fresh bag.
pub fn to_bag(fields: &VocabFields, bag: &Attrs) -> (r: Attrs)
    ensures
        r.value_map() == composed_spec(*fields, *bag, Set::<Seq<char>>::empty()),
        r.omitted() == Set::<Seq<char>>::empty(),
{
    let omit: Vec<String> = Vec::new();
    let m = match compose(fields, bag, &omit) {
        Ok(m) => m,
        Err(_) => {
            proof {
                assert(false);
            }
            AttrMap::new()
        },
    };
    proof {
        assert(str_views(omit@) =~= Seq::<Seq<char>>::empty());
        assert(str_views(omit@).to_set() =~= Set::<Seq<char>>::empty());
    }
    Attrs::from_map(m)
}

/// Empty-set correctness: with an empty bag and all-empty explicit fields
/// the composed mapping is empty and serializes to the empty string
/// exactly.
pub proof fn lemma_empty_composition(fields: VocabFields, bag: Attrs, omit: Set<Seq<char>>)
    requires
        forall|k: Seq<char>|
            #[trigger] fields.fields_map().dom().contains(k) ==> fields.fields_map()[k]
                == Seq::<char>::empty(),
        bag.value_map() == Map::<Seq<char>, Seq<char>>::empty(),
    ensures
        composed_spec(fields, bag, omit) == Map::<Seq<char>, Seq<char>>::empty(),
        crate::opt_attrs::serialize_spec(composed_spec(fields, bag, omit)) == Seq::<char>::empty(),
{
    let m = composed_spec(fields, bag, omit);
    assert forall|k: Seq<char>| !(#[trigger] m.dom().contains(k)) by {
        if !omit.contains(k) {
            assert(!bag.visible().dom().contains(k));
            if vocab_spec().contains(k) {
                assert(fields.fields_map().dom().contains(k));
                assert(bag_opt(bag, k) == Seq::<char>::empty());
                assert(crate::text::trimmed(Seq::<char>::empty()) == Seq::<char>::empty());
                assert(merged_value(fields, bag, k).len() == 0);
            }
        }
    }
    assert(m =~= Map::<Seq<char>, Seq<char>>::empty());
    crate::opt_attrs::lemma_serialize_empty(m);
}

/// Omission correctness: a key in the omit set is never bound by the
/// composed mapping, whatever the explicit field and the bag hold for it.
pub proof fn lemma_omission_correct(
    fields: VocabFields,
    bag: Attrs,
    omit: Set<Seq<char>>,
    k: Seq<char>,
)
    requires
        omit.contains(k),
    ensures
        !composed_spec(fields, bag, omit).dom().contains(k),
{
}

/// Concatenation correctness: a vocabulary key not omitted is bound exactly
/// when the concatenation policy yields a non-empty value, and then to that
/// value — explicit field first, one space, bag value; one side alone
/// verbatim after trimming; absent when both sides are empty.
pub proof fn lemma_concatenation_correct(
    fields: VocabFields,
    bag: Attrs,
    omit: Set<Seq<char>>,
    k: Seq<char>,
)
    requires
        vocab_spec().contains(k),
        !omit.contains(k),
    ensures
        composed_spec(fields, bag, omit).dom().contains(k) == (concat_policy(
            fields.fields_map()[k],
            bag_opt(bag, k),
        ).len() > 0),
        composed_spec(fields, bag, omit).dom().contains(k) ==> composed_spec(fields, bag, omit)[k]
            == concat_policy(fields.fields_map()[k], bag_opt(bag, k)),
{
}

/// Passthrough correctness: a name outside the full vocabulary that the bag
/// binds and neither the omit list nor the bag's own omission set hides is
/// bound verbatim by the composed mapping.
pub proof fn lemma_passthrough_correct(
    fields: VocabFields,
    bag: Attrs,
    omit: Set<Seq<char>>,
    k: Seq<char>,
)
    requires
        !in_full_vocab(k),
        !omit.contains(k),
        bag.value_map().dom().contains(k),
        !bag.omitted().contains(k),
    ensures
        composed_spec(fields, bag, omit).dom().contains(k),
        composed_spec(fields, bag, omit)[k] == bag.value_map()[k],
{
    assert(bag.visible().dom().contains(k));
}

/// Passthrough names reach the wire: in the canonical listing's rendering,
/// a non-vocabulary name the bag binds to a non-empty value, hidden by
/// neither the omit list nor the bag's omission set, appears verbatim as
/// `name="value"`.
pub proof fn lemma_passthrough_rendered(
    fields: VocabFields,
    bag: Attrs,
    omit: Set<Seq<char>>,
    k: Seq<char>,
    s: Seq<crate::opt_attrs::AttrPair>,
)
    requires
        crate::opt_attrs::is_canonical_listing(composed_spec(fields, bag, omit), s),
        !in_full_vocab(k),
        !omit.contains(k),
        bag.value_map().dom().contains(k),
        !bag.omitted().contains(k),
        bag.value_map()[k].len() > 0,
    ensures
        exists|off: int|
            0 <= off && off + crate::opt_attrs::render_pair((k, bag.value_map()[k])).len()
                <= crate::opt_attrs::render_listing(s).len()
                && #[trigger] crate::opt_attrs::render_listing(s).subrange(
                off,
                off + crate::opt_attrs::render_pair((k, bag.value_map()[k])).len() as int,
            ) == crate::opt_attrs::render_pair((k, bag.value_map()[k])),
{
    let m = composed_spec(fields, bag, omit);
    lemma_passthrough_correct(fields, bag, omit, k);
    crate::opt_attrs::lemma_listing_has(m, s, k);
    let i = choose|i: int| 0 <= i < s.len() && #[trigger] s[i] == (k, m[k]);
    crate::opt_attrs::lemma_render_contains(s, i);
    assert(s[i] == (k, bag.value_map()[k]));
    let p = crate::opt_attrs::render_pair((k, bag.value_map()[k]));
    let off = choose|off: int|
        0 <= off && off + crate::opt_attrs::render_pair(s[i]).len()
            <= crate::opt_attrs::render_listing(s).len()
            && #[trigger] crate::opt_attrs::render_listing(s).subrange(
            off,
            off + crate::opt_attrs::render_pair(s[i]).len() as int,
        ) == crate::opt_attrs::render_pair(s[i]);
    assert(crate::opt_attrs::render_listing(s).subrange(off, off + p.len() as int) == p);
}

} // verus!
