//! The closed attribute vocabulary: the names the schema generator exposes
//! as typed fields, the two reserved names read only through the bag, and
//! the total mapping between the hyphenated canonical form and the
//! underscored field form.

use vstd::prelude::*;
use vstd::string::*;

use crate::text::str_eq;

verus! {

/// The vocabulary, in its published order: identity and style names, ARIA
/// names, interaction names, and the fixed `hx-` wire-protocol group.
pub open spec fn vocab_spec() -> Seq<Seq<char>> {
    seq![
        "id"@,
        "class"@,
        "onclick"@,
        "role"@,
        "aria-orientation"@,
        "aria-labelledby"@,
        "tabindex"@,
        "name"@,
        "autocomplete"@,
        "value"@,
        "placeholder"@,
        "hx-boost"@,
        "hx-get"@,
        "hx-post"@,
        "hx-on"@,
        "hx-push-url"@,
        "hx-select"@,
        "hx-select-oob"@,
        "hx-swap"@,
        "hx-swap-oob"@,
        "hx-target"@,
        "hx-trigger"@,
        "hx-vals"@,
        "hx-confirm"@,
        "hx-delete"@,
        "hx-disable"@,
        "hx-disabled-elt"@,
        "hx-disinherit"@,
        "hx-encoding"@,
        "hx-ext"@,
        "hx-headers"@,
        "hx-history"@,
        "hx-history-elt"@,
        "hx-include"@,
        "hx-indicator"@,
        "hx-params"@,
        "hx-patch"@,
        "hx-preserve"@,
        "hx-prompt"@,
        "hx-put"@,
        "hx-replace-url"@,
        "hx-request"@,
        "hx-sse"@,
        "hx-sync"@,
        "hx-validate"@,
        "hx-vars"@,
        "hx-ws"@,
    ]
}

/// The two reserved names: they collide with reserved identifiers in the
/// generated field set, so they are never exposed as typed fields and are
/// read only through the bag.
pub open spec fn reserved_spec() -> Seq<Seq<char>> {
    seq!["for"@, "type"@]
}

/// Membership in the full vocabulary: the typed names and the reserved
/// ones.
pub open spec fn in_full_vocab(k: Seq<char>) -> bool {
    vocab_spec().contains(k) || reserved_spec().contains(k)
}

/// The index of the first occurrence of a name, or -1 when it does not
/// occur.
pub open spec fn name_index(s: Seq<Seq<char>>, k: Seq<char>) -> int
    decreases s.len(),
{
    if s.len() == 0 {
        -1
    } else if s[0] == k {
        0
    } else if name_index(s.drop_first(), k) < 0 {
        -1
    } else {
        1 + name_index(s.drop_first(), k)
    }
}

/// What `name_index` returns: -1 exactly when the name is absent, else the
/// first index that carries it.
pub proof fn lemma_name_index(s: Seq<Seq<char>>, k: Seq<char>)
    ensures
        name_index(s, k) == -1 ==> forall|i: int| 0 <= i < s.len() ==> s[i] != k,
        name_index(s, k) != -1 ==> 0 <= name_index(s, k) < s.len() && s[name_index(s, k)] == k
            && forall|j: int| 0 <= j < name_index(s, k) ==> s[j] != k,
    decreases s.len(),
{
    if s.len() > 0 {
        lemma_name_index(s.drop_first(), k);
        if s[0] == k {
        } else if name_index(s.drop_first(), k) < 0 {
            assert forall|i: int| 0 <= i < s.len() implies s[i] != k by {
                if i > 0 {
                    assert(s.drop_first()[i - 1] == s[i]);
                }
            }
        } else {
            let r = name_index(s.drop_first(), k);
            assert(s[r + 1] == s.drop_first()[r]);
            assert forall|j: int| 0 <= j < r + 1 implies s[j] != k by {
                if j > 0 {
                    assert(s.drop_first()[j - 1] == s[j]);
                }
            }
        }
    }
}

/// A first match characterizes `name_index`.
pub proof fn lemma_name_index_of_first_match(s: Seq<Seq<char>>, k: Seq<char>, i: int)
    requires
        0 <= i < s.len(),
        s[i] == k,
        forall|j: int| 0 <= j < i ==> s[j] != k,
    ensures
        name_index(s, k) == i,
{
    lemma_name_index(s, k);
    let r = name_index(s, k);
    if r == -1 {
        assert(s[i] != k);
        assert(false);
    } else if r < i {
        assert(s[r] != k);
        assert(false);
    } else if r > i {
        assert(s[i] != k);
        assert(false);
    }
}

/// Membership matches a non-negative `name_index`.
pub proof fn lemma_name_index_contains(s: Seq<Seq<char>>, k: Seq<char>)
    ensures
        s.contains(k) == (name_index(s, k) >= 0),
{
    lemma_name_index(s, k);
    if name_index(s, k) >= 0 {
        assert(s.contains(k)) by {
            assert(s[name_index(s, k)] == k);
        }
    } else {
        assert(!s.contains(k)) by {
            assert(forall|i: int| 0 <= i < s.len() ==> s[i] != k);
        }
    }
}

/// The vocabulary as string slices, in the published order.
pub fn vocab_names() -> (r: Vec<&'static str>)
    ensures
        r@.len() == vocab_spec().len(),
        forall|i: int| 0 <= i < r@.len() ==> (#[trigger] r@[i])@ == vocab_spec()[i],
{
    let r: Vec<&'static str> = vec![
        "id",
        "class",
        "onclick",
        "role",
        "aria-orientation",
        "aria-labelledby",
        "tabindex",
        "name",
        "autocomplete",
        "value",
        "placeholder",
        "hx-boost",
        "hx-get",
        "hx-post",
        "hx-on",
        "hx-push-url",
        "hx-select",
        "hx-select-oob",
        "hx-swap",
        "hx-swap-oob",
        "hx-target",
        "hx-trigger",
        "hx-vals",
        "hx-confirm",
        "hx-delete",
        "hx-disable",
        "hx-disabled-elt",
        "hx-disinherit",
        "hx-encoding",
        "hx-ext",
        "hx-headers",
        "hx-history",
        "hx-history-elt",
        "hx-include",
        "hx-indicator",
        "hx-params",
        "hx-patch",
        "hx-preserve",
        "hx-prompt",
        "hx-put",
        "hx-replace-url",
        "hx-request",
        "hx-sse",
        "hx-sync",
        "hx-validate",
        "hx-vars",
        "hx-ws",
    ];
    r
}

/// Whether a name is one of the typed vocabulary names.
pub fn is_vocab_name(name: &str) -> (r: bool)
    ensures
        r == vocab_spec().contains(name@),
{
    let names = vocab_names();
    let n = names.len();
    let mut i: usize = 0;
    while i < n
        invariant
            0 <= i <= n,
            n == vocab_spec().len(),
            names@.len() == vocab_spec().len(),
            forall|l: int| 0 <= l < names@.len() ==> (#[trigger] names@[l])@ == vocab_spec()[l],
            forall|j: int| 0 <= j < i ==> vocab_spec()[j] != name@,
        decreases n - i,
    {
        if str_eq(names[i], name) {
            proof {
                assert(vocab_spec()[i as int] == name@);
            }
            return true;
        }
        i = i + 1;
    }
    proof {
        assert(forall|j: int| 0 <= j < vocab_spec().len() ==> vocab_spec()[j] != name@);
    }
    false
}

/// Whether a name is one of the two reserved names.
pub fn is_reserved_name(name: &str) -> (r: bool)
    ensures
        r == reserved_spec().contains(name@),
{
    if str_eq(name, "for") || str_eq(name, "type") {
        proof {
            if name@ == "for"@ {
                assert(reserved_spec()[0] == name@);
            } else {
                assert(reserved_spec()[1] == name@);
            }
        }
        true
    } else {
        proof {
            assert(forall|j: int| 0 <= j < reserved_spec().len() ==> reserved_spec()[j] != name@);
        }
        false
    }
}

/// Whether a name is in the full vocabulary.
pub fn is_full_vocab_name(name: &str) -> (r: bool)
    ensures
        r == in_full_vocab(name@),
{
    is_vocab_name(name) || is_reserved_name(name)
}

/// The underscored field form of a name: every hyphen becomes an
/// underscore.
pub open spec fn underscored(s: Seq<char>) -> Seq<char> {
    s.map_values(|c: char| if c == '-' { '_' } else { c })
}

/// The hyphenated canonical form of a field identifier: every underscore
/// becomes a hyphen.
pub open spec fn hyphenated(s: Seq<char>) -> Seq<char> {
    s.map_values(|c: char| if c == '_' { '-' } else { c })
}

/// On names without underscores — every vocabulary name — the two forms
/// map to one another exactly: the mapping is total and bijective.
pub proof fn lemma_hyphen_underscore_round_trip(s: Seq<char>)
    requires
        !s.contains('_'),
    ensures
        hyphenated(underscored(s)) == s,
{
    assert forall|i: int| 0 <= i < s.len() implies hyphenated(underscored(s))[i] == s[i] by {
        assert(s[i] != '_');
        assert(underscored(s)[i] == if s[i] == '-' {
            '_'
        } else {
            s[i]
        });
    }
    assert(hyphenated(underscored(s)) =~= s);
}

/// The reverse round trip, on identifiers without hyphens.
pub proof fn lemma_underscore_hyphen_round_trip(s: Seq<char>)
    requires
        !s.contains('-'),
    ensures
        underscored(hyphenated(s)) == s,
{
    assert forall|i: int| 0 <= i < s.len() implies underscored(hyphenated(s))[i] == s[i] by {
        assert(s[i] != '-');
        assert(hyphenated(s)[i] == if s[i] == '_' {
            '-'
        } else {
            s[i]
        });
    }
    assert(underscored(hyphenated(s)) =~= s);
}

/// The underscored field form of a name.
pub fn field_ident_of(name: &str) -> (r: String)
    ensures
        r@ == underscored(name@),
{
    replace_char(name, '-', '_')
}

/// The hyphenated canonical form of a field identifier.
pub fn attr_name_of(ident: &str) -> (r: String)
    ensures
        r@ == hyphenated(ident@),
{
    replace_char(ident, '_', '-')
}

/// Replace every occurrence of one character by another.
fn replace_char(s: &str, from: char, to: char) -> (r: String)
    ensures
        r@ == s@.map_values(|c: char| if c == from { to } else { c }),
{
    let len = s.unicode_len();
    let mut out = String::new();
    let mut i: usize = 0;
    while i < len
        invariant
            0 <= i <= len,
            len == s@.len(),
            out@ == s@.take(i as int).map_values(|c: char| if c == from { to } else { c }),
        decreases len - i,
    {
        let c = s.get_char(i);
        if c == from {
            crate::text::push_char(&mut out, to);
        } else {
            crate::text::push_char(&mut out, c);
        }
        proof {
            let f = |c: char| if c == from { to } else { c };
            assert(s@.take(i + 1) =~= s@.take(i as int).push(s@[i as int]));
            assert(s@.take(i + 1).map_values(f) =~= s@.take(i as int).map_values(f).push(f(
                s@[i as int],
            )));
        }
        i = i + 1;
    }
    proof {
        assert(s@.take(len as int) =~= s@);
    }
    out
}

} // verus!
