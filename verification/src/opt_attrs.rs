//! The serializer: renders an attribute mapping as one stable string,
//! `name1="value1" name2="value2" ...`, keys in ascending lexicographic
//! order, empty values skipped, double quotes in values escaped.

use vstd::prelude::*;
use vstd::relations::{sorted_by, total_ordering};
use vstd::seq_lib::lemma_multiset_commutative;
use vstd::string::*;

use crate::attrs::distinct_keys;
use crate::attrs::lemma_has_key_index;
use crate::attrs::lemma_pairs_map_dom;
use crate::attrs::lemma_pairs_map_value;
use crate::attrs::pair_views;
use crate::attrs::pairs_map;
use crate::attrs::AttrMap;
use crate::attrs::Attrs;
use crate::text::esc_char;
use crate::text::escape_str;
use crate::text::escaped;
use crate::text::lemma_lex_antisym;
use crate::text::lemma_lex_total;
use crate::text::lemma_lex_trans;
use crate::text::lex_le;
use crate::text::lex_lt;
use crate::text::str_eq;
use crate::text::str_lex_le;

verus! {

/// One key/value pair of character sequences.
pub type AttrPair = (Seq<char>, Seq<char>);

/// The order the serializer sorts by: by key, and by value between pairs
/// with equal keys, so that the relation is a total order.
pub open spec fn pair_le(a: AttrPair, b: AttrPair) -> bool {
    lex_lt(a.0, b.0) || (a.0 == b.0 && lex_le(a.1, b.1))
}

/// `pair_le` as a function value, for `sorted_by`.
pub open spec fn pair_order() -> spec_fn(AttrPair, AttrPair) -> bool {
    |a: AttrPair, b: AttrPair| pair_le(a, b)
}

/// The order is reflexive.
pub proof fn lemma_lex_refl(a: Seq<char>)
    ensures
        lex_le(a, a),
    decreases a.len(),
{
    if a.len() > 0 {
        lemma_lex_refl(a.drop_first());
    }
}

/// `pair_order` is a total order.
pub proof fn lemma_pair_order_total()
    ensures
        total_ordering(pair_order()),
{
    let r = pair_order();
    assert forall|x: AttrPair| #[trigger] r(x, x) by {
        lemma_lex_refl(x.0);
        lemma_lex_refl(x.1);
    }
    assert forall|x: AttrPair, y: AttrPair| #[trigger] r(x, y) && #[trigger] r(y, x) implies x
        == y by {
        if lex_lt(x.0, y.0) || lex_lt(y.0, x.0) {
            lemma_lex_antisym(x.0, y.0);
        } else {
            lemma_lex_antisym(x.1, y.1);
        }
    }
    assert forall|x: AttrPair, y: AttrPair, z: AttrPair|
        #[trigger] r(x, y) && #[trigger] r(y, z) implies r(x, z) by {
        lemma_pair_le_trans(x, y, z);
    }
    assert forall|x: AttrPair, y: AttrPair| #[trigger] r(x, y) || #[trigger] r(y, x) by {
        lemma_lex_total(x.0, y.0);
        lemma_lex_total(x.1, y.1);
    }
}

proof fn lemma_pair_le_trans(x: AttrPair, y: AttrPair, z: AttrPair)
    requires
        pair_le(x, y),
        pair_le(y, z),
    ensures
        pair_le(x, z),
{
    if x.0 == y.0 {
        lemma_lex_refl(x.0);
    }
    if y.0 == z.0 {
        lemma_lex_refl(y.0);
    }
    lemma_lex_trans(x.0, y.0, z.0);
    if x.0 == z.0 {
        if lex_lt(x.0, y.0) {
            lemma_lex_antisym(y.0, z.0);
        } else if lex_lt(y.0, z.0) {
            lemma_lex_antisym(x.0, y.0);
        } else {
            lemma_lex_trans(x.1, y.1, z.1);
        }
    }
}

/// How one pair is rendered: `key="value"`, the value escaped.
pub open spec fn render_pair(p: AttrPair) -> Seq<char> {
    p.0 + seq!['=', '"'] + escaped(p.1) + seq!['"']
}

/// How a listing of pairs is rendered: the pairs in order, one space
/// between neighbours, nothing around them.
pub open spec fn render_listing(s: Seq<AttrPair>) -> Seq<char>
    decreases s.len(),
{
    if s.len() == 0 {
        Seq::empty()
    } else if s.len() == 1 {
        render_pair(s[0])
    } else {
        render_pair(s[0]) + seq![' '] + render_listing(s.drop_first())
    }
}

/// Rendering distributes over appending one pair at the end.
pub proof fn lemma_render_push(s: Seq<AttrPair>, p: AttrPair)
    ensures
        render_listing(s.push(p)) == if s.len() == 0 {
            render_pair(p)
        } else {
            render_listing(s) + seq![' '] + render_pair(p)
        },
    decreases s.len(),
{
    if s.len() == 0 {
        assert(s.push(p)[0] == p);
    } else {
        assert(s.push(p)[0] == s[0]);
        assert(s.push(p).drop_first() =~= s.drop_first().push(p));
        lemma_render_push(s.drop_first(), p);
        if s.len() == 1 {
            assert(s.drop_first().len() == 0);
            assert(render_listing(s.push(p)) == render_pair(s[0]) + seq![' '] + render_pair(p));
            assert(render_listing(s) == render_pair(s[0]));
        } else {
            assert(render_listing(s.push(p)) == render_pair(s[0]) + seq![' '] + (render_listing(
                s.drop_first(),
            ) + seq![' '] + render_pair(p)));
            assert(render_listing(s) == render_pair(s[0]) + seq![' '] + render_listing(
                s.drop_first(),
            ));
            assert(render_pair(s[0]) + seq![' '] + (render_listing(s.drop_first()) + seq![' ']
                + render_pair(p)) =~= (render_pair(s[0]) + seq![' '] + render_listing(
                s.drop_first(),
            )) + seq![' '] + render_pair(p));
        }
    }
}

/// What the canonical listing of a mapping is: exactly the bindings with a
/// non-empty value, in strictly ascending key order.
pub open spec fn is_canonical_listing(m: Map<Seq<char>, Seq<char>>, s: Seq<AttrPair>) -> bool {
    &&& forall|i: int|
        0 <= i < s.len() ==> (#[trigger] s[i]).1.len() > 0 && m.contains_pair(s[i].0, s[i].1)
    &&& forall|i: int, j: int| 0 <= i < j < s.len() ==> lex_lt(#[trigger] s[i].0, #[trigger] s[j].0)
    &&& forall|k: Seq<char>|
        #[trigger] m.dom().contains(k) && m[k].len() > 0 ==> exists|i: int|
            0 <= i < s.len() && (#[trigger] s[i]).0 == k
}

/// A mapping has at most one canonical listing.
pub proof fn lemma_canonical_unique(m: Map<Seq<char>, Seq<char>>, s1: Seq<AttrPair>, s2: Seq<
    AttrPair,
>)
    requires
        is_canonical_listing(m, s1),
        is_canonical_listing(m, s2),
    ensures
        s1 == s2,
    decreases s1.len(),
{
    if s1.len() == 0 {
        if s2.len() > 0 {
            assert(m.contains_pair(s2[0].0, s2[0].1));
            assert(exists|i: int| 0 <= i < s1.len() && (#[trigger] s1[i]).0 == s2[0].0);
            assert(false);
        }
        assert(s1 =~= s2);
    } else if s2.len() == 0 {
        assert(m.contains_pair(s1[0].0, s1[0].1));
        assert(exists|i: int| 0 <= i < s2.len() && (#[trigger] s2[i]).0 == s1[0].0);
        assert(false);
    } else {
        let a = s1[0].0;
        let b = s2[0].0;
        assert(m.contains_pair(s1[0].0, s1[0].1));
        assert(m.contains_pair(s2[0].0, s2[0].1));
        let i = choose|i: int| 0 <= i < s1.len() && (#[trigger] s1[i]).0 == b;
        let j = choose|j: int| 0 <= j < s2.len() && (#[trigger] s2[j]).0 == a;
        if i > 0 && j > 0 {
            assert(lex_lt(a, s1[i].0));
            assert(lex_lt(b, s2[j].0));
            lemma_lex_antisym(a, b);
            assert(false);
        }
        assert(a == b);
        assert(s1[0].1 == m[a]);
        assert(s2[0].1 == m[a]);
        assert(s1[0] == s2[0]);
        let m2 = m.remove(a);
        assert(is_canonical_listing(m2, s1.drop_first())) by {
            lemma_canonical_tail(m, s1);
        }
        assert(is_canonical_listing(m2, s2.drop_first())) by {
            lemma_canonical_tail(m, s2);
        }
        lemma_canonical_unique(m2, s1.drop_first(), s2.drop_first());
        assert(s1.len() == s2.len());
        assert forall|i: int| 0 <= i < s1.len() implies s1[i] == s2[i] by {
            if i > 0 {
                assert(s1[i] == s1.drop_first()[i - 1]);
                assert(s2[i] == s2.drop_first()[i - 1]);
            }
        }
        assert(s1 =~= s2);
    }
}

/// The tail of a canonical listing is the canonical listing of the mapping
/// without the head key.
proof fn lemma_canonical_tail(m: Map<Seq<char>, Seq<char>>, s: Seq<AttrPair>)
    requires
        is_canonical_listing(m, s),
        s.len() > 0,
    ensures
        is_canonical_listing(m.remove(s[0].0), s.drop_first()),
{
    let a = s[0].0;
    let m2 = m.remove(a);
    let t = s.drop_first();
    assert forall|i: int| 0 <= i < t.len() implies (#[trigger] t[i]).1.len() > 0
        && m2.contains_pair(t[i].0, t[i].1) by {
        assert(t[i] == s[i + 1]);
        assert(lex_lt(s[0].0, s[i + 1].0));
    }
    assert forall|i: int, j: int| 0 <= i < j < t.len() implies lex_lt(
        #[trigger] t[i].0,
        #[trigger] t[j].0,
    ) by {
        assert(t[i] == s[i + 1]);
        assert(t[j] == s[j + 1]);
    }
    assert forall|k: Seq<char>| #[trigger] m2.dom().contains(k) && m2[k].len() > 0 implies exists|
        i: int,
    | 0 <= i < t.len() && (#[trigger] t[i]).0 == k by {
        assert(m.dom().contains(k) && m[k].len() > 0);
        let i = choose|i: int| 0 <= i < s.len() && (#[trigger] s[i]).0 == k;
        assert(i > 0);
        assert(t[i - 1] == s[i]);
        assert(0 <= i - 1 < t.len() && t[i - 1].0 == k);
    }
}

/// The canonical listing of a mapping.  Meaningful wherever one exists;
/// `lemma_canonical_unique` makes it the only one.
pub open spec fn canonical_listing_of(m: Map<Seq<char>, Seq<char>>) -> Seq<AttrPair> {
    choose|s: Seq<AttrPair>| is_canonical_listing(m, s)
}

/// What the serializer returns on a mapping.
pub open spec fn serialize_spec(m: Map<Seq<char>, Seq<char>>) -> Seq<char> {
    render_listing(canonical_listing_of(m))
}

/// The pairs with a non-empty value, in their original order.
pub open spec fn keep_nonempty(s: Seq<AttrPair>) -> Seq<AttrPair>
    decreases s.len(),
{
    if s.len() == 0 {
        Seq::empty()
    } else if s.last().1.len() > 0 {
        keep_nonempty(s.drop_last()).push(s.last())
    } else {
        keep_nonempty(s.drop_last())
    }
}

/// A pair stands in the filtered sequence exactly when it stands in the
/// original one and has a non-empty value.
proof fn lemma_keep_contains(s: Seq<AttrPair>)
    ensures
        forall|x: AttrPair| #[trigger] keep_nonempty(s).contains(x) <==> (s.contains(x)
            && x.1.len() > 0),
    decreases s.len(),
{
    broadcast use vstd::seq_lib::group_seq_properties;

    if s.len() > 0 {
        lemma_keep_contains(s.drop_last());
        assert(s =~= s.drop_last().push(s.last()));
        assert forall|x: AttrPair| #[trigger] keep_nonempty(s).contains(x) <==> (s.contains(x)
            && x.1.len() > 0) by {
            assert(s.contains(x) <==> s.drop_last().contains(x) || x == s.last());
            if s.last().1.len() > 0 {
                assert(keep_nonempty(s) == keep_nonempty(s.drop_last()).push(s.last()));
                assert(keep_nonempty(s).contains(x) <==> keep_nonempty(s.drop_last()).contains(x)
                    || x == s.last());
            }
        }
    }
}

/// Filtering keeps keys distinct.
proof fn lemma_keep_distinct(s: Seq<AttrPair>)
    requires
        distinct_keys(s),
    ensures
        distinct_keys(keep_nonempty(s)),
    decreases s.len(),
{
    broadcast use vstd::seq_lib::group_seq_properties;

    if s.len() > 0 {
        let dl = s.drop_last();
        assert(distinct_keys(dl)) by {
            assert(forall|p: int| 0 <= p < dl.len() ==> dl[p] == s[p]);
        }
        lemma_keep_distinct(dl);
        if s.last().1.len() > 0 {
            let k = keep_nonempty(dl);
            let kn = keep_nonempty(s);
            assert(kn == k.push(s.last()));
            lemma_keep_contains(dl);
            assert forall|p: int, q: int| 0 <= p < q < kn.len() implies kn[p].0 != kn[q].0 by {
                if q == kn.len() - 1 {
                    assert(kn[p] == k[p]);
                    assert(kn[q] == s.last());
                    assert(k.contains(k[p]));
                    assert(dl.contains(k[p]));
                    let r = choose|r: int| 0 <= r < dl.len() && dl[r] == k[p];
                    assert(s[r] == k[p]);
                    assert(s[r].0 != s[s.len() - 1].0);
                } else {
                    assert(kn[p] == k[p]);
                    assert(kn[q] == k[q]);
                }
            }
        }
    }
}

/// Inserting an element anywhere adds exactly that element to the multiset.
proof fn lemma_insert_multiset(s: Seq<AttrPair>, j: int, x: AttrPair)
    requires
        0 <= j <= s.len(),
    ensures
        s.insert(j, x).to_multiset() == s.to_multiset().insert(x),
{
    broadcast use vstd::seq_lib::group_to_multiset_ensures;
    broadcast use vstd::multiset::group_multiset_axioms;

    let pre = s.subrange(0, j);
    let post = s.subrange(j, s.len() as int);
    assert(s.insert(j, x) =~= pre.push(x) + post);
    assert(s =~= pre + post);
    lemma_multiset_commutative(pre.push(x), post);
    lemma_multiset_commutative(pre, post);
    assert(pre.push(x).to_multiset() =~= pre.to_multiset().insert(x));
    assert(pre.to_multiset().insert(x).add(post.to_multiset()) =~= pre.to_multiset().add(
        post.to_multiset(),
    ).insert(x));
}

/// A permutation of a sequence with distinct keys has distinct keys.
proof fn lemma_distinct_via_multiset(a: Seq<AttrPair>, b: Seq<AttrPair>)
    requires
        a.to_multiset() == b.to_multiset(),
        distinct_keys(a),
    ensures
        distinct_keys(b),
{
    broadcast use vstd::seq_lib::group_to_multiset_ensures;
    broadcast use vstd::multiset::group_multiset_axioms;
    broadcast use vstd::seq_lib::group_seq_properties;

    assert forall|p: int, q: int| 0 <= p < q < b.len() implies b[p].0 != b[q].0 by {
        let x = b[p];
        let y = b[q];
        if x.0 == y.0 {
            if x == y {
                assert(b.remove(p).to_multiset() == b.to_multiset().remove(x));
                assert(b.remove(p)[q - 1] == b[q]);
                assert(b.remove(p).contains(x));
                assert(b.to_multiset().remove(x).count(x) > 0);
                assert(a.to_multiset().count(x) >= 2);
                assert(a.to_multiset().count(x) > 0);
                assert(a.contains(x));
                let i = choose|i: int| 0 <= i < a.len() && a[i] == x;
                assert(a.remove(i).to_multiset() == a.to_multiset().remove(x));
                assert(a.remove(i).to_multiset().count(x) > 0);
                assert(a.remove(i).contains(x));
                let i2 = choose|i2: int| 0 <= i2 < a.remove(i).len() && a.remove(i)[i2] == x;
                let i3: int = if i2 < i {
                    i2
                } else {
                    i2 + 1
                };
                assert(a[i3] == x);
                assert(i3 != i);
                assert(a[i].0 == a[i3].0);
                assert(false);
            } else {
                assert(b.contains(x));
                assert(b.contains(y));
                assert(a.to_multiset().count(x) > 0);
                assert(a.to_multiset().count(y) > 0);
                assert(a.contains(x));
                assert(a.contains(y));
                let i = choose|i: int| 0 <= i < a.len() && a[i] == x;
                let j = choose|j: int| 0 <= j < a.len() && a[j] == y;
                assert(i != j);
                assert(a[i].0 == a[j].0);
                assert(false);
            }
        }
    }
}

/// The serializer's order on stored pairs.
fn pair_le_exec(a: &(String, String), b: &(String, String)) -> (r: bool)
    ensures
        r == pair_le((a.0@, a.1@), (b.0@, b.1@)),
{
    if str_eq(a.0.as_str(), b.0.as_str()) {
        str_lex_le(a.1.as_str(), b.1.as_str())
    } else {
        str_lex_le(a.0.as_str(), b.0.as_str())
    }
}

/// Render one attribute: empty when the value is empty, `key="value"`
/// otherwise, with double quotes in the value escaped.
pub fn opt_attr(key: &str, val: &str) -> (r: String)
    ensures
        r@ == if val@.len() == 0 {
            Seq::<char>::empty()
        } else {
            render_pair((key@, val@))
        },
{
    if val.is_empty() {
        let r = String::new();
        r
    } else {
        let mut out = String::from_str(key);
        out.append("=\"");
        let esc = escape_str(val);
        out.append(esc.as_str());
        out.append("\"");
        proof {
            reveal_strlit("=\"");
            reveal_strlit("\"");
            assert("=\""@ =~= seq!['=', '"']);
            assert("\""@ =~= seq!['"']);
            assert(out@ =~= render_pair((key@, val@)));
        }
        out
    }
}

/// Render a whole mapping: the bindings with non-empty values, in ascending
/// lexicographic key order, one space between neighbours, nothing around
/// them.
pub fn opt_attrs(map: &AttrMap) -> (r: String)
    ensures
        r@ == serialize_spec(map@),
        is_canonical_listing(map@, canonical_listing_of(map@)),
{
    broadcast use vstd::seq_lib::group_to_multiset_ensures;
    broadcast use vstd::multiset::group_multiset_axioms;
    broadcast use vstd::seq_lib::group_seq_properties;

    let ghost m = map@;
    let n = map.len();
    let ghost entries = map.entries();

    // Keep the bindings with a non-empty value.
    let mut items: Vec<(String, String)> = Vec::new();
    let mut i: usize = 0;
    proof {
        assert(entries.take(0) =~= Seq::<AttrPair>::empty());
        assert(pair_views(items@) =~= keep_nonempty(entries.take(0)));
    }
    while i < n
        invariant
            0 <= i <= n,
            n == entries.len(),
            entries == map.entries(),
            pair_views(items@) == keep_nonempty(entries.take(i as int)),
        decreases n - i,
    {
        let p = map.entry_at(i);
        proof {
            assert(entries.take(i + 1).drop_last() =~= entries.take(i as int));
            assert(entries.take(i + 1).last() == entries[i as int]);
        }
        if !p.1.as_str().is_empty() {
            items.push((p.0.clone(), p.1.clone()));
            proof {
                assert(pair_views(items@) =~= keep_nonempty(entries.take(i as int)).push(
                    entries[i as int],
                ));
            }
        }
        i = i + 1;
    }
    proof {
        assert(entries.take(n as int) =~= entries);
    }
    let ghost kept = pair_views(items@);

    // Sort by key (by value between equal keys, which distinct keys never
    // reach), inserting each pair at its place.
    let mut sorted: Vec<(String, String)> = Vec::new();
    let item_count = items.len();
    let mut idx: usize = 0;
    proof {
        lemma_pair_order_total();
        assert(kept.take(0) =~= Seq::<AttrPair>::empty());
        assert(pair_views(sorted@).to_multiset() =~= kept.take(0).to_multiset());
    }
    while idx < item_count
        invariant
            0 <= idx <= item_count,
            item_count == items@.len(),
            kept == pair_views(items@),
            sorted_by(pair_views(sorted@), pair_order()),
            pair_views(sorted@).to_multiset() == kept.take(idx as int).to_multiset(),
            total_ordering(pair_order()),
        decreases item_count - idx,
    {
        let item = (items[idx].0.clone(), items[idx].1.clone());
        let ghost itv = kept[idx as int];
        proof {
            assert(itv == (item.0@, item.1@));
        }
        let end = sorted.len();
        let mut j: usize = 0;
        while j < end && pair_le_exec(&sorted[j], &item)
            invariant
                0 <= j <= end,
                end == sorted@.len(),
                forall|p: int| 0 <= p < j ==> pair_le(pair_views(sorted@)[p], itv),
                itv == (item.0@, item.1@),
            decreases end - j,
        {
            proof {
                assert(pair_views(sorted@)[j as int] == (sorted@[j as int].0@,
                sorted@[j as int].1@));
            }
            j = j + 1;
        }
        let ghost sv = pair_views(sorted@);
        proof {
            if j < end {
                assert(sv[j as int] == (sorted@[j as int].0@, sorted@[j as int].1@));
                assert(!pair_le(sv[j as int], itv));
                let rord = pair_order();
                assert(rord(sv[j as int], itv) || rord(itv, sv[j as int]));
                assert(pair_le(itv, sv[j as int]));
            }
        }
        sorted.insert(j, item);
        proof {
            let svn = pair_views(sorted@);
            assert(svn =~= sv.insert(j as int, itv));
            lemma_insert_multiset(sv, j as int, itv);
            assert(kept.take(idx + 1).drop_last() =~= kept.take(idx as int));
            assert(kept.take(idx + 1).last() == kept[idx as int]);
            assert(kept.take(idx + 1) =~= kept.take(idx as int).push(itv));
            vstd::seq_lib::to_multiset_build(kept.take(idx as int), itv);
            assert(svn.to_multiset() =~= kept.take(idx + 1).to_multiset());
            let rord = pair_order();
            assert forall|p: int, q: int| 0 <= p < q < svn.len() implies pair_le(
                #[trigger] svn[p],
                #[trigger] svn[q],
            ) by {
                if q < j as int {
                    assert(rord(sv[p], sv[q]));
                    assert(svn[p] == sv[p] && svn[q] == sv[q]);
                } else if p > j as int {
                    assert(rord(sv[p - 1], sv[q - 1]));
                    assert(svn[p] == sv[p - 1] && svn[q] == sv[q - 1]);
                } else if p < j as int && q == j as int {
                    assert(svn[p] == sv[p] && svn[q] == itv);
                } else if p < j as int && q > j as int {
                    assert(p < q - 1);
                    assert(rord(sv[p], sv[q - 1]));
                    assert(svn[p] == sv[p] && svn[q] == sv[q - 1]);
                } else if p == j as int {
                    assert(svn[p] == itv && svn[q] == sv[q - 1]);
                    assert(q - 1 >= j as int);
                    if q - 1 == j as int {
                        assert(pair_le(itv, sv[j as int]));
                    } else {
                        assert(rord(sv[j as int], sv[q - 1]));
                        assert(pair_le(sv[j as int], sv[q - 1]));
                        assert(pair_le(itv, sv[j as int]));
                        lemma_pair_le_trans(itv, sv[j as int], sv[q - 1]);
                    }
                }
            }
            assert(sorted_by(svn, pair_order()));
        }
        idx = idx + 1;
    }
    proof {
        assert(kept.take(item_count as int) =~= kept);
    }

    // The sorted pairs are the canonical listing of the mapping.
    let ghost listing = pair_views(sorted@);
    proof {
        lemma_keep_contains(entries);
        lemma_keep_distinct(entries);
        lemma_distinct_via_multiset(kept, listing);
        assert forall|i2: int| 0 <= i2 < listing.len() implies (#[trigger] listing[i2]).1.len() > 0
            && m.contains_pair(listing[i2].0, listing[i2].1) by {
            assert(listing.contains(listing[i2]));
            assert(kept.to_multiset().count(listing[i2]) > 0);
            assert(kept.contains(listing[i2]));
            assert(entries.contains(listing[i2]) && listing[i2].1.len() > 0);
            let jj = choose|jj: int| 0 <= jj < entries.len() && entries[jj] == listing[i2];
            assert(forall|l: int| jj < l < entries.len() ==> entries[l].0 != entries[jj].0);
            lemma_pairs_map_value(entries, jj);
        }
        assert forall|p: int, q: int| 0 <= p < q < listing.len() implies lex_lt(
            #[trigger] listing[p].0,
            #[trigger] listing[q].0,
        ) by {
            let rord = pair_order();
            assert(rord(listing[p], listing[q]));
            assert(pair_le(listing[p], listing[q]));
            assert(listing[p].0 != listing[q].0);
        }
        assert forall|k: Seq<char>| #[trigger] m.dom().contains(k) && m[k].len() > 0 implies exists|
            i2: int,
        | 0 <= i2 < listing.len() && (#[trigger] listing[i2]).0 == k by {
            lemma_pairs_map_dom(entries, k);
            lemma_has_key_index(entries, k);
            let jj = choose|jj: int| 0 <= jj < entries.len() && entries[jj].0 == k;
            assert(forall|l: int| jj < l < entries.len() ==> entries[l].0 != entries[jj].0);
            lemma_pairs_map_value(entries, jj);
            assert(entries[jj].1 == m[k]);
            assert(entries.contains(entries[jj]));
            assert(kept.contains(entries[jj]));
            assert(listing.to_multiset().count(entries[jj]) > 0);
            assert(listing.contains(entries[jj]));
            let i2 = choose|i2: int| 0 <= i2 < listing.len() && listing[i2] == entries[jj];
            assert(listing[i2].0 == k);
        }
        assert(is_canonical_listing(m, listing));
    }

    // Render the listing.
    let mut out = String::new();
    let sorted_count = sorted.len();
    let mut k: usize = 0;
    proof {
        assert(listing.take(0) =~= Seq::<AttrPair>::empty());
    }
    while k < sorted_count
        invariant
            0 <= k <= sorted_count,
            sorted_count == sorted@.len(),
            listing == pair_views(sorted@),
            forall|i2: int| 0 <= i2 < listing.len() ==> (#[trigger] listing[i2]).1.len() > 0,
            out@ == render_listing(listing.take(k as int)),
        decreases sorted_count - k,
    {
        if k > 0 {
            out.append(" ");
            proof {
                reveal_strlit(" ");
                assert(" "@ =~= seq![' ']);
            }
        }
        let p = &sorted[k];
        proof {
            assert(listing[k as int] == (p.0@, p.1@));
            assert(listing[k as int].1.len() > 0);
        }
        let rendered = opt_attr(p.0.as_str(), p.1.as_str());
        out.append(rendered.as_str());
        proof {
            lemma_render_push(listing.take(k as int), listing[k as int]);
            assert(listing.take(k + 1) =~= listing.take(k as int).push(listing[k as int]));
            if k == 0 {
                assert(out@ =~= render_listing(listing.take(k + 1)));
            } else {
                assert(out@ =~= render_listing(listing.take(k as int)) + seq![' '] + render_pair(
                    listing[k as int],
                ));
            }
        }
        k = k + 1;
    }
    proof {
        assert(listing.take(sorted_count as int) =~= listing);
        assert(out@ == render_listing(listing));
        let picked = canonical_listing_of(m);
        assert(is_canonical_listing(m, picked)) by {
            assert(is_canonical_listing(m, listing));
        }
        lemma_canonical_unique(m, listing, picked);
    }
    out
}

/// A key that a mapping does not bind never stands in its canonical
/// listing, so the serialized output carries no attribute of that name.
pub proof fn lemma_listing_omits(m: Map<Seq<char>, Seq<char>>, s: Seq<AttrPair>, k: Seq<char>)
    requires
        is_canonical_listing(m, s),
        !m.dom().contains(k),
    ensures
        forall|i: int| 0 <= i < s.len() ==> (#[trigger] s[i]).0 != k,
{
    assert forall|i: int| 0 <= i < s.len() implies (#[trigger] s[i]).0 != k by {
        assert(m.contains_pair(s[i].0, s[i].1));
    }
}

/// A binding with a non-empty value stands in the canonical listing, so
/// the serialized output renders it.
pub proof fn lemma_listing_has(m: Map<Seq<char>, Seq<char>>, s: Seq<AttrPair>, k: Seq<char>)
    requires
        is_canonical_listing(m, s),
        m.dom().contains(k),
        m[k].len() > 0,
    ensures
        exists|i: int| 0 <= i < s.len() && #[trigger] s[i] == (k, m[k]),
{
    let i = choose|i: int| 0 <= i < s.len() && (#[trigger] s[i]).0 == k;
    assert(m.contains_pair(s[i].0, s[i].1));
    assert(s[i] == (k, m[k]));
}

/// Each pair of a listing is rendered verbatim, contiguously, somewhere in
/// the rendered listing.
pub proof fn lemma_render_contains(s: Seq<AttrPair>, i: int)
    requires
        0 <= i < s.len(),
    ensures
        exists|off: int|
            0 <= off && off + render_pair(s[i]).len() <= render_listing(s).len()
                && #[trigger] render_listing(s).subrange(off, off + render_pair(s[i]).len() as int)
                == render_pair(s[i]),
    decreases s.len(),
{
    let r = render_listing(s);
    let p = render_pair(s[i]);
    if i == 0 {
        if s.len() == 1 {
            assert(r == p);
            assert(r.subrange(0, p.len() as int) =~= p);
        } else {
            assert(r == p + seq![' '] + render_listing(s.drop_first()));
            assert(r.subrange(0, p.len() as int) =~= p);
        }
        assert(0 + p.len() <= r.len() && r.subrange(0, 0 + p.len() as int) == p);
    } else {
        let rest = s.drop_first();
        assert(rest[i - 1] == s[i]);
        lemma_render_contains(rest, i - 1);
        let off0 = choose|off0: int|
            0 <= off0 && off0 + render_pair(rest[i - 1]).len() <= render_listing(rest).len()
                && #[trigger] render_listing(rest).subrange(
                    off0,
                    off0 + render_pair(rest[i - 1]).len() as int,
                ) == render_pair(rest[i - 1]);
        assert(s.len() >= 2);
        assert(r == render_pair(s[0]) + seq![' '] + render_listing(rest));
        let off = render_pair(s[0]).len() + 1 + off0;
        assert(r.subrange(off as int, off + p.len()) =~= p) by {
            assert(render_listing(rest).subrange(off0, off0 + p.len() as int) == p);
        }
        assert(0 <= off && off + p.len() <= r.len() && r.subrange(off as int, off + p.len() as int)
            == p);
    }
}

/// Serializing the same canonical attribute set twice yields identical
/// output: the serialized form is a function of the mapping alone.
pub proof fn lemma_serialize_idempotent(
    m: Map<Seq<char>, Seq<char>>,
    r1: Seq<char>,
    r2: Seq<char>,
)
    requires
        r1 == serialize_spec(m),
        r2 == serialize_spec(m),
    ensures
        r1 == r2,
{
}

/// Bindings for different keys can be added in either order: the mapping,
/// and with it the serialized output, does not depend on construction
/// order.
pub proof fn lemma_insert_order_independent(
    m: Map<Seq<char>, Seq<char>>,
    k1: Seq<char>,
    v1: Seq<char>,
    k2: Seq<char>,
    v2: Seq<char>,
)
    requires
        k1 != k2,
    ensures
        m.insert(k1, v1).insert(k2, v2) == m.insert(k2, v2).insert(k1, v1),
{
    assert(m.insert(k1, v1).insert(k2, v2) =~= m.insert(k2, v2).insert(k1, v1));
}

/// Two mappings built from the same key/value pairs, in whatever order,
/// are the same mapping and serialize to byte-identical output.
pub proof fn lemma_serialize_order_independent(s1: Seq<AttrPair>, s2: Seq<AttrPair>)
    requires
        s1.to_multiset() == s2.to_multiset(),
        distinct_keys(s1),
    ensures
        pairs_map(s1) == pairs_map(s2),
        serialize_spec(pairs_map(s1)) == serialize_spec(pairs_map(s2)),
{
    broadcast use vstd::seq_lib::group_to_multiset_ensures;
    broadcast use vstd::multiset::group_multiset_axioms;
    broadcast use vstd::seq_lib::group_seq_properties;

    lemma_distinct_via_multiset(s1, s2);
    let m1 = pairs_map(s1);
    let m2 = pairs_map(s2);
    assert forall|k: Seq<char>| #[trigger] m1.dom().contains(k) implies m2.dom().contains(k)
        && m2[k] == m1[k] by {
        lemma_map_carry(s1, s2, k);
    }
    assert forall|k: Seq<char>| #[trigger] m2.dom().contains(k) implies m1.dom().contains(k) by {
        lemma_map_carry(s2, s1, k);
    }
    assert(m1 =~= m2);
}

/// A binding of one pair sequence is a binding of any permutation of it.
proof fn lemma_map_carry(s1: Seq<AttrPair>, s2: Seq<AttrPair>, k: Seq<char>)
    requires
        s1.to_multiset() == s2.to_multiset(),
        distinct_keys(s1),
        distinct_keys(s2),
        pairs_map(s1).dom().contains(k),
    ensures
        pairs_map(s2).dom().contains(k),
        pairs_map(s2)[k] == pairs_map(s1)[k],
{
    broadcast use vstd::seq_lib::group_to_multiset_ensures;
    broadcast use vstd::multiset::group_multiset_axioms;
    broadcast use vstd::seq_lib::group_seq_properties;

    lemma_pairs_map_dom(s1, k);
    lemma_has_key_index(s1, k);
    let i = choose|i: int| 0 <= i < s1.len() && s1[i].0 == k;
    lemma_pairs_map_value(s1, i);
    assert(s1.contains(s1[i]));
    assert(s2.to_multiset().count(s1[i]) > 0);
    assert(s2.contains(s1[i]));
    let i2 = choose|i2: int| 0 <= i2 < s2.len() && s2[i2] == s1[i];
    lemma_pairs_map_value(s2, i2);
}

/// A mapping whose values are all empty serializes to the empty string
/// exactly; its canonical listing is the empty listing.
pub proof fn lemma_serialize_empty(m: Map<Seq<char>, Seq<char>>)
    requires
        forall|k: Seq<char>| #[trigger] m.dom().contains(k) ==> m[k].len() == 0,
    ensures
        serialize_spec(m) == Seq::<char>::empty(),
        is_canonical_listing(m, Seq::<AttrPair>::empty()),
{
    let empty = Seq::<AttrPair>::empty();
    assert(is_canonical_listing(m, empty));
    let picked = canonical_listing_of(m);
    assert(is_canonical_listing(m, picked)) by {
        assert(is_canonical_listing(m, empty));
    }
    lemma_canonical_unique(m, empty, picked);
}

impl Attrs {
    /// The bag rendered as an attribute string: its visible mapping,
    /// serialized.
    pub fn to_attr_string(&self) -> (r: String)
        ensures
            r@ == serialize_spec(self.visible()),
            is_canonical_listing(self.visible(), canonical_listing_of(self.visible())),
    {
        let map = self.to_hashmap();
        opt_attrs(&map)
    }
}

} // verus!
