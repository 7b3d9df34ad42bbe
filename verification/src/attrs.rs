//! The attribute stores: `AttrMap`, a key/value mapping with unique keys,
//! and `Attrs`, the immutable-update pass-through bag with its omission set.

use vstd::prelude::*;
use vstd::string::*;

use crate::text::str_eq;

verus! {

/// The views of a sequence of strings.
pub open spec fn str_views(s: Seq<String>) -> Seq<Seq<char>> {
    s.map_values(|x: String| x@)
}

/// The views of a sequence of key/value pairs.
pub open spec fn pair_views(s: Seq<(String, String)>) -> Seq<(Seq<char>, Seq<char>)> {
    s.map_values(|p: (String, String)| (p.0@, p.1@))
}

/// The mapping a sequence of key/value pairs stands for; a later pair for
/// the same key wins.
pub open spec fn pairs_map(s: Seq<(Seq<char>, Seq<char>)>) -> Map<Seq<char>, Seq<char>>
    decreases s.len(),
{
    if s.len() == 0 {
        Map::empty()
    } else {
        pairs_map(s.drop_last()).insert(s.last().0, s.last().1)
    }
}

/// Whether some pair in the sequence carries the given key.
pub open spec fn has_key(s: Seq<(Seq<char>, Seq<char>)>, k: Seq<char>) -> bool
    decreases s.len(),
{
    if s.len() == 0 {
        false
    } else {
        s.last().0 == k || has_key(s.drop_last(), k)
    }
}

/// No two pairs in the sequence carry the same key.
pub open spec fn distinct_keys(s: Seq<(Seq<char>, Seq<char>)>) -> bool {
    forall|i: int, j: int| 0 <= i < j < s.len() ==> s[i].0 != s[j].0
}

/// A key is in the mapping exactly when some pair carries it.
pub proof fn lemma_pairs_map_dom(s: Seq<(Seq<char>, Seq<char>)>, k: Seq<char>)
    ensures
        pairs_map(s).dom().contains(k) == has_key(s, k),
    decreases s.len(),
{
    if s.len() > 0 {
        lemma_pairs_map_dom(s.drop_last(), k);
    }
}

/// The value of a key in the mapping is the value of the last pair that
/// carries it.
pub proof fn lemma_pairs_map_value(s: Seq<(Seq<char>, Seq<char>)>, i: int)
    requires
        0 <= i < s.len(),
        forall|j: int| i < j < s.len() ==> s[j].0 != s[i].0,
    ensures
        pairs_map(s).dom().contains(s[i].0),
        pairs_map(s)[s[i].0] == s[i].1,
    decreases s.len(),
{
    if i == s.len() - 1 {
        assert(s.last() == s[i]);
    } else {
        assert(s.last().0 != s[i].0);
        assert(s.drop_last()[i] == s[i]);
        lemma_pairs_map_value(s.drop_last(), i);
    }
}

/// Removing the one pair that carries a key removes that key from the
/// mapping, when keys are distinct.
pub proof fn lemma_pairs_map_remove(s: Seq<(Seq<char>, Seq<char>)>, i: int)
    requires
        distinct_keys(s),
        0 <= i < s.len(),
    ensures
        pairs_map(s.remove(i)) == pairs_map(s).remove(s[i].0),
    decreases s.len(),
{
    let k = s[i].0;
    if i == s.len() - 1 {
        assert(s.remove(i) =~= s.drop_last());
        lemma_pairs_map_dom(s.drop_last(), k);
        assert(!has_key(s.drop_last(), k)) by {
            lemma_has_key_index(s.drop_last(), k);
        }
        assert(pairs_map(s).remove(k) =~= pairs_map(s.drop_last()));
    } else {
        assert(s.remove(i).drop_last() =~= s.drop_last().remove(i));
        assert(s.remove(i).last() == s.last());
        assert(s.drop_last()[i] == s[i]);
        lemma_pairs_map_remove(s.drop_last(), i);
        assert(s.last().0 != k);
        assert(pairs_map(s.remove(i)) =~= pairs_map(s).remove(k)) by {
            assert(pairs_map(s.remove(i)) == pairs_map(s.drop_last()).remove(k).insert(
                s.last().0,
                s.last().1,
            ));
            assert(pairs_map(s).remove(k) == pairs_map(s.drop_last()).insert(
                s.last().0,
                s.last().1,
            ).remove(k));
        }
    }
}

/// `has_key` holds exactly when some index carries the key.
pub proof fn lemma_has_key_index(s: Seq<(Seq<char>, Seq<char>)>, k: Seq<char>)
    ensures
        has_key(s, k) == exists|i: int| 0 <= i < s.len() && s[i].0 == k,
    decreases s.len(),
{
    if s.len() > 0 {
        lemma_has_key_index(s.drop_last(), k);
        if s.last().0 == k {
            assert(s[s.len() - 1].0 == k);
        } else if has_key(s.drop_last(), k) {
            let i = choose|i: int| 0 <= i < s.drop_last().len() && s.drop_last()[i].0 == k;
            assert(s[i].0 == k);
        } else {
            assert forall|i: int| 0 <= i < s.len() implies s[i].0 != k by {
                if i < s.len() - 1 {
                    assert(s.drop_last()[i] == s[i]);
                }
            }
        }
    }
}

/// Clone a vector of string pairs, preserving its view.
pub(crate) fn clone_pairs(v: &Vec<(String, String)>) -> (r: Vec<(String, String)>)
    ensures
        r@ == v@,
{
    let mut r: Vec<(String, String)> = Vec::new();
    let n = v.len();
    let mut i: usize = 0;
    while i < n
        invariant
            0 <= i <= n,
            n == v@.len(),
            r@ == v@.take(i as int),
        decreases n - i,
    {
        let p = &v[i];
        r.push((p.0.clone(), p.1.clone()));
        proof {
            assert(r@ =~= v@.take(i + 1));
        }
        i = i + 1;
    }
    proof {
        assert(v@.take(n as int) =~= v@);
    }
    r
}

/// Clone a vector of strings, preserving its view.
pub(crate) fn clone_strings(v: &Vec<String>) -> (r: Vec<String>)
    ensures
        r@ == v@,
{
    let mut r: Vec<String> = Vec::new();
    let n = v.len();
    let mut i: usize = 0;
    while i < n
        invariant
            0 <= i <= n,
            n == v@.len(),
            r@ == v@.take(i as int),
        decreases n - i,
    {
        r.push(v[i].clone());
        proof {
            assert(r@ =~= v@.take(i + 1));
        }
        i = i + 1;
    }
    proof {
        assert(v@.take(n as int) =~= v@);
    }
    r
}

/// Whether some string in the vector equals the given one.
pub(crate) fn contains_str(v: &Vec<String>, key: &str) -> (r: bool)
    ensures
        r == str_views(v@).to_set().contains(key@),
{
    let n = v.len();
    let mut i: usize = 0;
    while i < n
        invariant
            0 <= i <= n,
            n == v@.len(),
            forall|j: int| 0 <= j < i ==> v@[j]@ != key@,
        decreases n - i,
    {
        if str_eq(v[i].as_str(), key) {
            proof {
                assert(str_views(v@)[i as int] == key@);
                crate::attrs::lemma_str_views_to_set(v@, key@);
            }
            return true;
        }
        i = i + 1;
    }
    proof {
        lemma_str_views_to_set(v@, key@);
        assert(forall|j: int| 0 <= j < v@.len() ==> str_views(v@)[j] != key@);
    }
    false
}

/// Membership in the set of string views matches membership by index.
pub proof fn lemma_str_views_to_set(s: Seq<String>, k: Seq<char>)
    ensures
        str_views(s).to_set().contains(k) == exists|i: int| 0 <= i < s.len() && s[i]@ == k,
{
    if str_views(s).to_set().contains(k) {
        let i = choose|i: int| 0 <= i < str_views(s).len() && str_views(s)[i] == k;
        assert(s[i]@ == k);
    }
    if exists|i: int| 0 <= i < s.len() && s[i]@ == k {
        let i = choose|i: int| 0 <= i < s.len() && s[i]@ == k;
        assert(str_views(s)[i] == k);
        assert(str_views(s).to_set().contains(k));
    }
}

/// Find the first pair that carries the given key.
fn find_key(pairs: &Vec<(String, String)>, key: &str) -> (r: Option<usize>)
    ensures
        match r {
            Some(i) => i < pairs@.len() && pair_views(pairs@)[i as int].0 == key@,
            None => forall|j: int| 0 <= j < pairs@.len() ==> pair_views(pairs@)[j].0 != key@,
        },
{
    let n = pairs.len();
    let mut i: usize = 0;
    while i < n
        invariant
            0 <= i <= n,
            n == pairs@.len(),
            forall|j: int| 0 <= j < i ==> pair_views(pairs@)[j].0 != key@,
        decreases n - i,
    {
        if str_eq(pairs[i].0.as_str(), key) {
            return Some(i);
        }
        i = i + 1;
    }
    None
}

/// The read-only attribute mapping the composition pipeline produces and
/// the serializer consumes: unique keys, no order of its own.
pub struct AttrMap {
    pairs: Vec<(String, String)>,
}

impl View for AttrMap {
    type V = Map<Seq<char>, Seq<char>>;

    closed spec fn view(&self) -> Map<Seq<char>, Seq<char>> {
        pairs_map(pair_views(self.pairs@))
    }
}

impl AttrMap {
    #[verifier::type_invariant]
    spec fn wf(self) -> bool {
        distinct_keys(pair_views(self.pairs@))
    }

    /// The entries as a sequence of view pairs, for callers that walk the
    /// mapping.
    pub closed spec fn entries(self) -> Seq<(Seq<char>, Seq<char>)> {
        pair_views(self.pairs@)
    }

    /// The empty mapping.
    pub fn new() -> (r: Self)
        ensures
            r@ == Map::<Seq<char>, Seq<char>>::empty(),
            r.entries().len() == 0,
    {
        let r = AttrMap { pairs: Vec::new() };
        proof {
            assert(pair_views(r.pairs@) =~= Seq::<(Seq<char>, Seq<char>)>::empty());
        }
        r
    }

    /// The number of entries.  The contract also hands callers what walking
    /// the entries needs: the keys are distinct and the entries stand for
    /// exactly the mapping.
    pub fn len(&self) -> (r: usize)
        ensures
            r == self.entries().len(),
            distinct_keys(self.entries()),
            pairs_map(self.entries()) == self@,
    {
        proof {
            use_type_invariant(self);
        }
        self.pairs.len()
    }

    /// The entry at an index, as a key/value pair.
    pub fn entry_at(&self, i: usize) -> (r: &(String, String))
        requires
            i < self.entries().len(),
        ensures
            (r.0@, r.1@) == self.entries()[i as int],
    {
        &self.pairs[i]
    }

    /// A new mapping with the binding added; an existing binding for the
    /// same key is replaced.
    pub fn insert(&self, key: &str, value: String) -> (r: Self)
        ensures
            r@ == self@.insert(key@, value@),
    {
        proof {
            use_type_invariant(self);
        }
        let mut pairs = clone_pairs(&self.pairs);
        let ghost old_views = pair_views(self.pairs@);
        match find_key(&pairs, key) {
            Some(i) => {
                proof {
                    lemma_pairs_map_remove(old_views, i as int);
                }
                pairs.remove(i);
                proof {
                    let mv = pair_views(pairs@);
                    assert(mv =~= old_views.remove(i as int));
                    assert forall|p: int, q: int| 0 <= p < q < mv.len() implies mv[p].0
                        != mv[q].0 by {
                        let p2: int = if p < i as int {
                            p
                        } else {
                            p + 1
                        };
                        let q2: int = if q < i as int {
                            q
                        } else {
                            q + 1
                        };
                        assert(mv[p] == old_views[p2]);
                        assert(mv[q] == old_views[q2]);
                    }
                    assert(distinct_keys(mv));
                }
            },
            None => {
                proof {
                    assert(pair_views(pairs@) =~= old_views);
                    lemma_has_key_index(old_views, key@);
                    lemma_pairs_map_dom(old_views, key@);
                    assert(pairs_map(old_views).remove(key@) =~= pairs_map(old_views));
                    assert(distinct_keys(pair_views(pairs@)));
                }
            },
        }
        let ghost mid_views = pair_views(pairs@);
        proof {
            lemma_has_key_index(mid_views, key@);
            lemma_pairs_map_dom(mid_views, key@);
            assert(!has_key(mid_views, key@)) by {
                assert(pairs_map(mid_views) == self@.remove(key@));
                assert(!self@.remove(key@).dom().contains(key@));
            }
            assert(distinct_keys(mid_views));
        }
        pairs.push((String::from_str(key), value));
        proof {
            let new_views = pair_views(pairs@);
            assert(new_views =~= mid_views.push((key@, value@)));
            assert(new_views.drop_last() =~= mid_views);
            assert(new_views.last() == (key@, value@));
            assert(pairs_map(new_views) == pairs_map(mid_views).insert(key@, value@));
            assert(self@.remove(key@).insert(key@, value@) =~= self@.insert(key@, value@));
            assert forall|p: int, q: int| 0 <= p < q < new_views.len() implies new_views[p].0
                != new_views[q].0 by {
                if q == new_views.len() - 1 {
                    assert(new_views[p] == mid_views[p]);
                    assert(forall|j: int| 0 <= j < mid_views.len() ==> mid_views[j].0 != key@);
                } else {
                    assert(new_views[p] == mid_views[p]);
                    assert(new_views[q] == mid_views[q]);
                }
            }
        }
        let r = AttrMap { pairs };
        r
    }

    /// Look a key up.
    pub fn get(&self, key: &str) -> (r: Option<&String>)
        ensures
            match r {
                Some(v) => self@.dom().contains(key@) && v@ == self@[key@],
                None => !self@.dom().contains(key@),
            },
    {
        proof {
            use_type_invariant(self);
        }
        let n = self.pairs.len();
        let mut i: usize = 0;
        while i < n
            invariant
                0 <= i <= n,
                n == self.pairs@.len(),
                forall|j: int| 0 <= j < i ==> self.pairs@[j].0@ != key@,
            decreases n - i,
        {
            let p = &self.pairs[i];
            if str_eq(p.0.as_str(), key) {
                proof {
                    let views = pair_views(self.pairs@);
                    use_type_invariant(self);
                    assert(views[i as int].0 == key@);
                    lemma_pairs_map_value(views, i as int);
                }
                return Some(&p.1);
            }
            i = i + 1;
        }
        proof {
            let views = pair_views(self.pairs@);
            lemma_has_key_index(views, key@);
            lemma_pairs_map_dom(views, key@);
            assert(forall|j: int| 0 <= j < views.len() ==> views[j].0 != key@);
        }
        None
    }

    /// A new mapping with the same bindings.
    pub fn duplicate(&self) -> (r: Self)
        ensures
            r@ == self@,
            r.entries() == self.entries(),
    {
        proof {
            use_type_invariant(self);
        }
        let cloned = clone_pairs(&self.pairs);
        proof {
            assert(pair_views(cloned@) == pair_views(self.pairs@));
        }
        AttrMap { pairs: cloned }
    }

    /// A new mapping holding every binding of `self`, then every binding of
    /// `other`; on a shared key the binding of `other` wins.
    pub fn extend(&self, other: &AttrMap) -> (r: Self)
        ensures
            r@ == self@.union_prefer_right(other@),
    {
        proof {
            use_type_invariant(other);
            use_type_invariant(self);
        }
        let cloned = clone_pairs(&self.pairs);
        proof {
            assert(pair_views(cloned@) == pair_views(self.pairs@));
        }
        let mut r = AttrMap { pairs: cloned };
        proof {
            assert(r@ == self@);
            assert(self@.union_prefer_right(pairs_map(
                pair_views(other.pairs@).take(0),
            )) =~= self@) by {
                assert(pair_views(other.pairs@).take(0) =~= Seq::<(Seq<char>, Seq<char>)>::empty());
            }
        }
        let n = other.pairs.len();
        let ghost oviews = pair_views(other.pairs@);
        let mut i: usize = 0;
        while i < n
            invariant
                0 <= i <= n,
                n == other.pairs@.len(),
                oviews == pair_views(other.pairs@),
                r@ == self@.union_prefer_right(pairs_map(oviews.take(i as int))),
            decreases n - i,
        {
            let p = &other.pairs[i];
            let prev = r;
            r = prev.insert(p.0.as_str(), p.1.clone());
            proof {
                assert(oviews.take(i + 1).drop_last() =~= oviews.take(i as int));
                assert(oviews.take(i + 1).last() == oviews[i as int]);
                assert(pairs_map(oviews.take(i + 1)) == pairs_map(oviews.take(i as int)).insert(
                    p.0@,
                    p.1@,
                ));
                assert(r@ =~= self@.union_prefer_right(pairs_map(oviews.take(i + 1))));
            }
            i = i + 1;
        }
        proof {
            assert(oviews.take(n as int) =~= oviews);
            use_type_invariant(other);
        }
        r
    }
}

/// The immutable-update attribute bag: a key/value store with an attached
/// omission set.  Every mutating operation returns a new bag; a name in the
/// omission set is hidden from every read, whatever the store holds for it.
pub struct Attrs {
    values: AttrMap,
    omit: Vec<String>,
}

impl Attrs {
    /// The key/value store, before omissions are applied.
    pub closed spec fn value_map(self) -> Map<Seq<char>, Seq<char>> {
        self.values@
    }

    /// The names the bag hides.
    pub closed spec fn omitted(self) -> Set<Seq<char>> {
        str_views(self.omit@).to_set()
    }

    /// What a lookup of a key observes.
    pub open spec fn spec_get(self, k: Seq<char>) -> Option<Seq<char>> {
        if self.omitted().contains(k) {
            None
        } else if self.value_map().dom().contains(k) {
            Some(self.value_map()[k])
        } else {
            None
        }
    }

    /// The mapping the bag presents: the store minus the omitted names.
    pub open spec fn visible(self) -> Map<Seq<char>, Seq<char>> {
        self.value_map().remove_keys(self.omitted())
    }

    /// A new bag containing a single binding.
    pub fn with(key: &str, value: String) -> (r: Self)
        ensures
            r.value_map() == Map::<Seq<char>, Seq<char>>::empty().insert(key@, value@),
            r.omitted() == Set::<Seq<char>>::empty(),
    {
        let r = Attrs { values: AttrMap::new().insert(key, value), omit: Vec::new() };
        proof {
            assert(str_views(r.omit@) =~= Seq::<Seq<char>>::empty());
            assert(r.omitted() =~= Set::<Seq<char>>::empty());
        }
        r
    }

    /// A bag built from a finished mapping, with nothing omitted.
    pub fn from_map(values: AttrMap) -> (r: Self)
        ensures
            r.value_map() == values@,
            r.omitted() == Set::<Seq<char>>::empty(),
    {
        let r = Attrs { values, omit: Vec::new() };
        proof {
            assert(str_views(r.omit@) =~= Seq::<Seq<char>>::empty());
            assert(r.omitted() =~= Set::<Seq<char>>::empty());
        }
        r
    }

    /// A new bag with the binding added; the omission set is kept.
    pub fn set(&self, key: &str, value: String) -> (r: Self)
        ensures
            r.value_map() == self.value_map().insert(key@, value@),
            r.omitted() == self.omitted(),
    {
        Attrs { values: self.values.insert(key, value), omit: clone_strings(&self.omit) }
    }

    /// `set` when the condition holds, the unchanged bag otherwise.
    pub fn set_if(&self, key: &str, value: String, condition: bool) -> (r: Self)
        ensures
            r.value_map() == if condition {
                self.value_map().insert(key@, value@)
            } else {
                self.value_map()
            },
            r.omitted() == self.omitted(),
    {
        if condition {
            self.set(key, value)
        } else {
            self.clone()
        }
    }

    /// A new bag with the same store and the given omission set.  The set
    /// replaces any earlier one; omissions do not accumulate over chained
    /// calls.
    pub fn omit(&self, fields_to_omit: Vec<String>) -> (r: Self)
        ensures
            r.value_map() == self.value_map(),
            r.omitted() == str_views(fields_to_omit@).to_set(),
    {
        Attrs { values: self.values.duplicate(), omit: fields_to_omit }
    }

    /// Look a key up; an omitted name reads as absent.
    pub fn get(&self, key: &str) -> (r: Option<&String>)
        ensures
            match r {
                Some(v) => self.spec_get(key@) == Some(v@),
                None => self.spec_get(key@) is None,
            },
    {
        if contains_str(&self.omit, key) {
            return None;
        }
        self.values.get(key)
    }

    /// The full mapping minus the omitted names.
    pub fn to_hashmap(&self) -> (r: AttrMap)
        ensures
            r@ == self.visible(),
    {
        let empty: Vec<String> = Vec::new();
        let r = filtered_map(&self.values, &self.omit, &empty);
        proof {
            assert(str_views(empty@) =~= Seq::<Seq<char>>::empty());
            assert(str_views(empty@).to_set() =~= Set::<Seq<char>>::empty());
            assert(r@ =~= self.visible());
        }
        r
    }

    /// `to_hashmap` minus the extra names.
    pub fn to_hashmap_excluding(&self, exclude: Vec<String>) -> (r: AttrMap)
        ensures
            r@ == self.visible().remove_keys(str_views(exclude@).to_set()),
    {
        filtered_map(&self.values, &self.omit, &exclude)
    }
}

impl Clone for Attrs {
    /// A bag with the same store and the same omission set.
    fn clone(&self) -> (r: Self)
        ensures
            r.value_map() == self.value_map(),
            r.omitted() == self.omitted(),
    {
        Attrs { values: self.values.duplicate(), omit: clone_strings(&self.omit) }
    }
}

impl Default for Attrs {
    /// The empty bag: no bindings, nothing omitted.
    fn default() -> (r: Self)
        ensures
            r.value_map() == Map::<Seq<char>, Seq<char>>::empty(),
            r.omitted() == Set::<Seq<char>>::empty(),
    {
        let r = Attrs { values: AttrMap::new(), omit: Vec::new() };
        proof {
            assert(str_views(r.omit@) =~= Seq::<Seq<char>>::empty());
            assert(r.omitted() =~= Set::<Seq<char>>::empty());
        }
        r
    }
}

/// The bindings of `values` whose keys stand in neither string vector.
fn filtered_map(values: &AttrMap, skip_a: &Vec<String>, skip_b: &Vec<String>) -> (r: AttrMap)
    ensures
        r@ == values@.remove_keys(str_views(skip_a@).to_set()).remove_keys(
            str_views(skip_b@).to_set(),
        ),
{
    let ghost entries = values.entries();
    let ghost sa = str_views(skip_a@).to_set();
    let ghost sb = str_views(skip_b@).to_set();
    let n = values.len();
    let mut r = AttrMap::new();
    proof {
        assert(entries.take(0) =~= Seq::<(Seq<char>, Seq<char>)>::empty());
        assert(r@ =~= pairs_map(entries.take(0)).remove_keys(sa).remove_keys(sb));
    }
    let mut i: usize = 0;
    while i < n
        invariant
            0 <= i <= n,
            n == entries.len(),
            entries == values.entries(),
            sa == str_views(skip_a@).to_set(),
            sb == str_views(skip_b@).to_set(),
            r@ == pairs_map(entries.take(i as int)).remove_keys(sa).remove_keys(sb),
        decreases n - i,
    {
        let p = values.entry_at(i);
        let ghost k = entries[i as int].0;
        let ghost v = entries[i as int].1;
        proof {
            assert(entries.take(i + 1).drop_last() =~= entries.take(i as int));
            assert(entries.take(i + 1).last() == entries[i as int]);
            assert(pairs_map(entries.take(i + 1)) == pairs_map(entries.take(i as int)).insert(
                k,
                v,
            ));
        }
        if !contains_str(skip_a, p.0.as_str()) && !contains_str(skip_b, p.0.as_str()) {
            r = r.insert(p.0.as_str(), p.1.clone());
            proof {
                assert(r@ =~= pairs_map(entries.take(i + 1)).remove_keys(sa).remove_keys(sb));
            }
        } else {
            proof {
                assert(r@ =~= pairs_map(entries.take(i + 1)).remove_keys(sa).remove_keys(sb));
            }
        }
        i = i + 1;
    }
    proof {
        assert(entries.take(n as int) =~= entries);
    }
    r
}

} // verus!
