//! A map keyed by strings, holding its entries in a vector ordered by key.

use vstd::prelude::*;

verus! {

/// A finite map from strings to values. The entries are kept in a vector, ordered by key
/// (character by character, which is the order of the keys' UTF-8 bytes); the type's
/// invariant is that each key is below the next, so no key occurs twice.
#[derive(Debug, PartialEq, Eq)]
pub struct StrMap<V> {
    entries: Vec<(String, V)>,
}

/// `a` comes before `b` in the order of characters, a prefix before its extensions.
pub open spec fn str_lt(a: Seq<char>, b: Seq<char>) -> bool
    decreases a.len(),
{
    if a.len() == 0 {
        b.len() > 0
    } else if b.len() == 0 {
        false
    } else if a[0] != b[0] {
        a[0] < b[0]
    } else {
        str_lt(a.drop_first(), b.drop_first())
    }
}

/// The keys of `s` are in increasing order.
pub open spec fn keys_sorted<V>(s: Seq<(String, V)>) -> bool {
    forall|i: int, j: int| 0 <= i < j < s.len() ==> str_lt(#[trigger] s[i].0@, #[trigger] s[j].0@)
}

/// The entries of `s` have pairwise different keys.
pub open spec fn keys_distinct<V>(s: Seq<(String, V)>) -> bool {
    forall|i: int, j: int| 0 <= i < s.len() && 0 <= j < s.len() && i != j ==> s[i].0@ != s[j].0@
}

/// `s` holds an entry at position `i` whose key is `k`.
pub open spec fn key_at<V>(s: Seq<(String, V)>, k: Seq<char>, i: int) -> bool {
    0 <= i < s.len() && s[i].0@ == k
}

/// The map that the entries `s` stand for.
pub open spec fn entries_map<V: View>(s: Seq<(String, V)>) -> Map<Seq<char>, V::V> {
    Map::new(
        |k: Seq<char>| exists|i: int| key_at(s, k, i),
        |k: Seq<char>| s[choose|i: int| key_at(s, k, i)].1@,
    )
}

/// Nothing comes before itself.
pub proof fn lemma_str_lt_irreflexive(a: Seq<char>)
    ensures
        !str_lt(a, a),
    decreases a.len(),
{
    if a.len() > 0 {
        lemma_str_lt_irreflexive(a.drop_first());
    }
}

/// Of two different strings, one comes before the other, and not both.
pub proof fn lemma_str_lt_total(a: Seq<char>, b: Seq<char>)
    ensures
        a != b ==> (str_lt(a, b) || str_lt(b, a)),
        !(str_lt(a, b) && str_lt(b, a)),
    decreases a.len(),
{
    if a.len() > 0 && b.len() > 0 && a[0] == b[0] {
        lemma_str_lt_total(a.drop_first(), b.drop_first());
        if a.drop_first() == b.drop_first() {
            assert(a =~= seq![a[0]] + a.drop_first());
            assert(b =~= seq![b[0]] + b.drop_first());
        }
    }
    if a.len() == 0 && b.len() == 0 {
        assert(a =~= b);
    }
}

/// The order is transitive.
pub proof fn lemma_str_lt_transitive(a: Seq<char>, b: Seq<char>, c: Seq<char>)
    requires
        str_lt(a, b),
        str_lt(b, c),
    ensures
        str_lt(a, c),
    decreases a.len(),
{
    if a.len() > 0 && b.len() > 0 && c.len() > 0 && a[0] == b[0] && b[0] == c[0] {
        lemma_str_lt_transitive(a.drop_first(), b.drop_first(), c.drop_first());
    }
}

/// Sorted keys are distinct.
proof fn lemma_sorted_distinct<V>(s: Seq<(String, V)>)
    requires
        keys_sorted(s),
    ensures
        keys_distinct(s),
{
    assert forall|i: int, j: int| 0 <= i < s.len() && 0 <= j < s.len() && i != j
        implies s[i].0@ != s[j].0@ by {
        if i < j {
            assert(str_lt(s[i].0@, s[j].0@));
        } else {
            assert(str_lt(s[j].0@, s[i].0@));
        }
        lemma_str_lt_irreflexive(s[i].0@);
    }
}

/// With distinct keys, the entry at position `j` is the map's entry for its key.
proof fn lemma_entries_map_at<V: View>(s: Seq<(String, V)>, j: int)
    requires
        keys_distinct(s),
        0 <= j < s.len(),
    ensures
        entries_map(s).contains_key(s[j].0@),
        entries_map(s)[s[j].0@] == s[j].1@,
{
    let k = s[j].0@;
    assert(key_at(s, k, j));
    let i = choose|i: int| key_at(s, k, i);
    assert(i == j);
}

/// With distinct keys, the entries stand for `m` when they list exactly its keys, each with
/// its value.
proof fn lemma_entries_map_is<V: View>(s: Seq<(String, V)>, m: Map<Seq<char>, V::V>)
    requires
        keys_distinct(s),
        forall|j: int| 0 <= j < s.len() ==> #[trigger] m.contains_key(s[j].0@) && m[s[j].0@] == s[j].1@,
        forall|k: Seq<char>| #[trigger] m.contains_key(k) ==> exists|j: int| key_at(s, k, j),
    ensures
        entries_map(s) == m,
{
    assert forall|k: Seq<char>| #[trigger] entries_map(s).contains_key(k) <==> m.contains_key(k) by {
        if entries_map(s).contains_key(k) {
            let j = choose|j: int| key_at(s, k, j);
            assert(m.contains_key(s[j].0@));
        }
    }
    assert forall|k: Seq<char>| #[trigger] entries_map(s).contains_key(k) implies entries_map(s)[k] == m[k] by {
        let j = choose|j: int| key_at(s, k, j);
        lemma_entries_map_at(s, j);
        assert(m.contains_key(s[j].0@));
    }
    assert(entries_map(s) =~= m);
}

/// Whether `a` comes before `b`.
fn chars_lt(a: &Vec<char>, b: &Vec<char>) -> (r: bool)
    ensures
        r == str_lt(a@, b@),
{
    let mut i: usize = 0;
    assert(a@.skip(0) =~= a@ && b@.skip(0) =~= b@);
    while i < a.len() && i < b.len() && a[i] == b[i]
        invariant
            i <= a@.len(),
            i <= b@.len(),
            str_lt(a@, b@) == str_lt(a@.skip(i as int), b@.skip(i as int)),
        decreases a.len() - i,
    {
        assert(a@.skip(i as int).drop_first() =~= a@.skip(i + 1));
        assert(b@.skip(i as int).drop_first() =~= b@.skip(i + 1));
        i += 1;
    }
    let ghost sa = a@.skip(i as int);
    let ghost sb = b@.skip(i as int);
    if i == a.len() {
        assert(sa.len() == 0);
        i < b.len()
    } else if i == b.len() {
        false
    } else {
        assert(sa[0] == a@[i as int] && sb[0] == b@[i as int]);
        a[i] < b[i]
    }
}

impl<V> StrMap<V> {
    #[verifier::type_invariant]
    spec fn well_formed(self) -> bool {
        keys_sorted(self.entries@)
    }

    /// The entries, in the order in which they are held.
    pub closed spec fn entry_seq(self) -> Seq<(String, V)> {
        self.entries@
    }
}

impl<V: View> View for StrMap<V> {
    type V = Map<Seq<char>, V::V>;

    closed spec fn view(&self) -> Map<Seq<char>, V::V> {
        entries_map(self.entries@)
    }
}

impl<V: View> StrMap<V> {
    /// An empty map.
    pub fn new() -> (r: Self)
        ensures
            r@ == Map::<Seq<char>, V::V>::empty(),
    {
        let r = StrMap { entries: Vec::new() };
        assert(r@ =~= Map::<Seq<char>, V::V>::empty());
        r
    }

    /// The number of keys.
    pub fn len(&self) -> (r: usize)
        ensures
            self@.dom().finite(),
            r == self@.dom().len(),
    {
        proof {
            use_type_invariant(self);
            lemma_sorted_distinct(self.entries@);
            let s = self.entries@;
            let keys = s.map_values(|e: (String, V)| e.0@);
            keys.unique_seq_to_set();
            assert(self@.dom() =~= keys.to_set()) by {
                assert forall|k: Seq<char>| self@.dom().contains(k) implies keys.to_set().contains(k) by {
                    let i = choose|i: int| key_at(s, k, i);
                    assert(keys[i] == k);
                }
                assert forall|k: Seq<char>| keys.to_set().contains(k) implies self@.dom().contains(k) by {
                    let i = choose|i: int| 0 <= i < keys.len() && keys[i] == k;
                    assert(key_at(s, k, i));
                }
            }
        }
        self.entries.len()
    }

    /// Whether the map holds no key.
    pub fn is_empty(&self) -> (r: bool)
        ensures
            r <==> self@ == Map::<Seq<char>, V::V>::empty(),
    {
        if self.entries.len() == 0 {
            assert(self@ =~= Map::<Seq<char>, V::V>::empty());
            true
        } else {
            assert(key_at(self.entries@, self.entries@[0].0@, 0));
            assert(self@.contains_key(self.entries@[0].0@));
            false
        }
    }

    /// The position of the entry with key `key`, if there is one.
    fn find(&self, key: &str) -> (r: Option<usize>)
        ensures
            r matches Some(i) ==> i < self.entries@.len() && self.entries@[i as int].0@ == key@,
            r is None ==> forall|i: int| 0 <= i < self.entries@.len() ==> self.entries@[i].0@ != key@,
    {
        let k = key.to_owned();
        let mut i: usize = 0;
        while i < self.entries.len()
            invariant
                i <= self.entries@.len(),
                k@ == key@,
                forall|j: int| 0 <= j < i ==> self.entries@[j].0@ != key@,
            decreases self.entries.len() - i,
        {
            if self.entries[i].0 == k {
                return Some(i);
            }
            i += 1;
        }
        None
    }

    /// The value held for `key`.
    pub fn get(&self, key: &str) -> (r: Option<&V>)
        ensures
            r is Some <==> self@.contains_key(key@),
            r matches Some(v) ==> v@ == self@[key@],
    {
        proof {
            use_type_invariant(self);
            lemma_sorted_distinct(self.entries@);
        }
        match self.find(key) {
            Some(i) => {
                proof {
                    lemma_entries_map_at(self.entries@, i as int);
                }
                Some(&self.entries[i].1)
            },
            None => None,
        }
    }

    /// Whether the map holds `key`.
    pub fn contains_key(&self, key: &str) -> (r: bool)
        ensures
            r == self@.contains_key(key@),
    {
        self.get(key).is_some()
    }

    /// Removes the entry for `key` and hands back its stored key and value.
    pub fn remove_entry(&mut self, key: &str) -> (r: Option<(String, V)>)
        ensures
            final(self)@ == old(self)@.remove(key@),
            r is Some <==> old(self)@.contains_key(key@),
            r matches Some(e) ==> e.0@ == key@ && e.1@ == old(self)@[key@],
    {
        proof {
            use_type_invariant(&*self);
            lemma_sorted_distinct(self.entries@);
        }
        match self.find(key) {
            Some(i) => {
                let ghost before = self.entries@;
                let ghost old_view = self@;
                proof {
                    lemma_entries_map_at(before, i as int);
                }
                let mut entries: Vec<(String, V)> = Vec::new();
                std::mem::swap(&mut entries, &mut self.entries);
                let e = entries.remove(i);
                let ghost after = entries@;
                proof {
                    assert(after =~= before.remove(i as int));
                    assert forall|a: int, b: int| 0 <= a < b < after.len()
                        implies str_lt(#[trigger] after[a].0@, #[trigger] after[b].0@) by {
                        let aa = if a < i { a } else { a + 1 };
                        let bb = if b < i { b } else { b + 1 };
                        assert(after[a] == before[aa]);
                        assert(after[b] == before[bb]);
                    }
                    lemma_sorted_distinct(after);
                    let m = old_view.remove(key@);
                    assert forall|j: int| 0 <= j < after.len() implies #[trigger] m.contains_key(after[j].0@)
                        && m[after[j].0@] == after[j].1@ by {
                        let jj = if j < i { j } else { j + 1 };
                        assert(after[j] == before[jj]);
                        lemma_entries_map_at(before, jj);
                    }
                    assert forall|k: Seq<char>| #[trigger] m.contains_key(k) implies exists|j: int| key_at(after, k, j) by {
                        let jj = choose|jj: int| key_at(before, k, jj);
                        assert(jj != i);
                        if jj < i {
                            assert(key_at(after, k, jj));
                        } else {
                            assert(key_at(after, k, jj - 1));
                        }
                    }
                    lemma_entries_map_is(after, m);
                }
                self.entries = entries;
                Some(e)
            },
            None => {
                proof {
                    assert(self@ =~= self@.remove(key@));
                }
                None
            },
        }
    }

    /// Removes the entry for `key` and hands back its value.
    pub fn remove(&mut self, key: &str) -> (r: Option<V>)
        ensures
            final(self)@ == old(self)@.remove(key@),
            r is Some <==> old(self)@.contains_key(key@),
            r matches Some(v) ==> v@ == old(self)@[key@],
    {
        match self.remove_entry(key) {
            Some(e) => Some(e.1),
            None => None,
        }
    }

    /// Holds `value` for `key`, handing back the value that `key` held before, if any.
    pub fn insert(&mut self, key: String, value: V) -> (r: Option<V>)
        ensures
            final(self)@ == old(self)@.insert(key@, value@),
            r is Some <==> old(self)@.contains_key(key@),
            r matches Some(v) ==> v@ == old(self)@[key@],
    {
        let ghost old_view = self@;
        let previous = self.remove(key.as_str());
        proof {
            use_type_invariant(&*self);
        }
        let ghost before = self.entries@;
        let ghost removed_view = self@;
        let ghost k0 = key@;
        let ghost v0 = value@;
        proof {
            lemma_sorted_distinct(before);
            assert forall|j: int| 0 <= j < before.len() implies before[j].0@ != k0 by {
                lemma_entries_map_at(before, j);
            }
        }
        let key_chars = chars_of_string(&key);
        let mut p: usize = 0;
        while p < self.entries.len() && chars_lt(&chars_of_string(&self.entries[p].0), &key_chars)
            invariant
                p <= before.len(),
                self.entries@ == before,
                key_chars@ == k0,
                forall|j: int| 0 <= j < p ==> str_lt(#[trigger] before[j].0@, k0),
            decreases before.len() - p,
        {
            p += 1;
        }
        proof {
            if p < before.len() {
                lemma_str_lt_total(before[p as int].0@, k0);
                assert(str_lt(k0, before[p as int].0@));
                assert forall|j: int| p <= j < before.len() implies str_lt(k0, #[trigger] before[j].0@) by {
                    if j > p {
                        lemma_str_lt_transitive(k0, before[p as int].0@, before[j].0@);
                    }
                }
            }
        }
        let mut entries: Vec<(String, V)> = Vec::new();
        std::mem::swap(&mut entries, &mut self.entries);
        entries.insert(p, (key, value));
        let ghost after = entries@;
        proof {
            assert(after[p as int].0@ == k0 && after[p as int].1@ == v0);
            assert forall|j: int| 0 <= j < after.len() && j != p implies after[j] == before[if j < p { j } else { j - 1 }] by {}
            assert forall|a: int, b: int| 0 <= a < b < after.len()
                implies str_lt(#[trigger] after[a].0@, #[trigger] after[b].0@) by {
                if a == p {
                    assert(after[b] == before[b - 1]);
                } else if b == p {
                    assert(after[a] == before[a]);
                } else {
                    let aa = if a < p { a } else { a - 1 };
                    let bb = if b < p { b } else { b - 1 };
                    assert(after[a] == before[aa]);
                    assert(after[b] == before[bb]);
                }
            }
            lemma_sorted_distinct(after);
            let m = old_view.insert(k0, v0);
            assert(m == removed_view.insert(k0, v0));
            assert forall|j: int| 0 <= j < after.len() implies #[trigger] m.contains_key(after[j].0@)
                && m[after[j].0@] == after[j].1@ by {
                if j != p {
                    let jj = if j < p { j } else { j - 1 };
                    assert(after[j] == before[jj]);
                    lemma_entries_map_at(before, jj);
                }
            }
            assert forall|k: Seq<char>| #[trigger] m.contains_key(k) implies exists|j: int| key_at(after, k, j) by {
                if k == k0 {
                    assert(key_at(after, k, p as int));
                } else {
                    let jj = choose|jj: int| key_at(before, k, jj);
                    if jj < p {
                        assert(key_at(after, k, jj));
                    } else {
                        assert(key_at(after, k, jj + 1));
                    }
                }
            }
            lemma_entries_map_is(after, m);
        }
        self.entries = entries;
        previous
    }

    /// The entries, each key with its value, in increasing order of keys.
    pub fn entries(&self) -> (r: &Vec<(String, V)>)
        ensures
            r@ == self.entry_seq(),
            keys_sorted(r@),
            forall|i: int| 0 <= i < r@.len() ==> #[trigger] self@.contains_key(r@[i].0@) && self@[r@[i].0@] == r@[i].1@,
            forall|k: Seq<char>| #[trigger] self@.contains_key(k) ==> exists|i: int| key_at(r@, k, i),
    {
        proof {
            use_type_invariant(self);
            lemma_sorted_distinct(self.entries@);
            assert forall|i: int| 0 <= i < self.entries@.len() implies #[trigger] self@.contains_key(self.entries@[i].0@)
                && self@[self.entries@[i].0@] == self.entries@[i].1@ by {
                lemma_entries_map_at(self.entries@, i);
            }
        }
        &self.entries
    }
}

/// A copy of the map: the same keys, in the same order, each with a clone of its value.
impl<V: Clone> Clone for StrMap<V> {
    fn clone(&self) -> (r: Self)
        ensures
            r.entry_seq().len() == self.entry_seq().len(),
            forall|i: int| 0 <= i < r.entry_seq().len() ==> #[trigger] r.entry_seq()[i].0 == self.entry_seq()[i].0
                && vstd::pervasive::cloned(self.entry_seq()[i].1, r.entry_seq()[i].1),
    {
        proof {
            use_type_invariant(self);
        }
        let mut entries: Vec<(String, V)> = Vec::new();
        let mut i: usize = 0;
        while i < self.entries.len()
            invariant
                i <= self.entries@.len(),
                keys_sorted(self.entries@),
                entries@.len() == i,
                forall|j: int| 0 <= j < i ==> #[trigger] entries@[j].0 == self.entries@[j].0
                    && vstd::pervasive::cloned(self.entries@[j].1, entries@[j].1),
            decreases self.entries.len() - i,
        {
            let key = self.entries[i].0.clone();
            let value = self.entries[i].1.clone();
            entries.push((key, value));
            i += 1;
        }
        proof {
            assert forall|a: int, b: int| 0 <= a < b < entries@.len()
                implies str_lt(#[trigger] entries@[a].0@, #[trigger] entries@[b].0@) by {
                assert(entries@[a].0 == self.entries@[a].0);
                assert(entries@[b].0 == self.entries@[b].0);
            }
        }
        StrMap { entries }
    }
}

/// The characters of `s`.
fn chars_of_string(s: &String) -> (r: Vec<char>)
    ensures
        r@ == s@,
{
    crate::text::chars_of(s.as_str())
}

} // verus!
